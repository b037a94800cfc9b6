use nucleotide::single_instance::{
    pipe_wait_over, request_from_args, wide_nul, write_outcome, ExternalOpenFile, ForwardError,
    LaunchArgs, Position, PIPE_NAME,
};

#[test]
fn wide_nul_is_nul_terminated() {
    let value = wide_nul(PIPE_NAME);

    assert_eq!(value.last().copied(), Some(0));
    assert_eq!(value.iter().filter(|&&ch| ch == 0).count(), 1);
}

#[test]
fn request_from_args_preserves_paths_working_dir_and_dock_action() {
    let project = r"C:\Users\Example\project".to_string();
    let file = format!(r"{}\src\main.rs", project);
    let args = LaunchArgs {
        files: vec![(file.clone(), vec![Position { row: 4, col: 2 }])],
        working_directory: Some(project.clone()),
    };

    let request = request_from_args(&args, Some(1));

    assert_eq!(
        request.files,
        vec![ExternalOpenFile::new(file, Position { row: 4, col: 2 })]
    );
    assert_eq!(request.working_directory, Some(project));
    assert_eq!(request.dock_action, Some(1));
}

#[test]
fn request_from_args_preserves_multiple_file_positions() {
    let file = r"C:\Users\Example\project\src\main.rs".to_string();
    let args = LaunchArgs {
        files: vec![(
            file.clone(),
            vec![Position { row: 2, col: 0 }, Position { row: 5, col: 3 }],
        )],
        working_directory: None,
    };

    let request = request_from_args(&args, None);

    assert_eq!(
        request.files,
        vec![
            ExternalOpenFile::new(file.clone(), Position { row: 2, col: 0 }),
            ExternalOpenFile::new(file, Position { row: 5, col: 3 }),
        ]
    );
}

#[test]
fn file_without_positions_opens_at_the_start() {
    let args = LaunchArgs {
        files: vec![("a.txt".to_string(), vec![]), ("b.txt".to_string(), vec![Position { row: 1, col: 1 }])],
        working_directory: None,
    };
    let request = request_from_args(&args, None);
    assert_eq!(
        request.files,
        vec![
            ExternalOpenFile::new("a.txt".to_string(), Position::default()),
            ExternalOpenFile::new("b.txt".to_string(), Position { row: 1, col: 1 }),
        ]
    );
}

#[test]
fn wide_nul_encodes_surrogate_pairs() {
    assert_eq!(wide_nul("a\u{1F600}"), vec![0x61, 0xD83D, 0xDE00, 0]);
    assert_eq!(wide_nul(""), vec![0]);
    assert_eq!(wide_nul("é"), "é".encode_utf16().chain(std::iter::once(0)).collect::<Vec<u16>>());
}

#[test]
fn complete_write_forwards_the_request() {
    assert_eq!(write_outcome(Ok(42), 42), Ok(()));
}

#[test]
fn short_write_is_reported_with_both_counts() {
    let r = write_outcome(Ok(10), 42);
    assert_eq!(r, Err(ForwardError::Incomplete { written: 10, expected: 42 }));
    assert_eq!(
        r.unwrap_err().message(),
        "wrote incomplete launch request: 10 of 42 bytes"
    );
}

#[test]
fn refused_write_keeps_the_system_error() {
    let r = write_outcome(Err("Access is denied.".to_string()), 5);
    assert_eq!(r, Err(ForwardError::Write("Access is denied.".to_string())));
    assert_eq!(
        r.unwrap_err().message(),
        "failed to write launch request: Access is denied."
    );
}

#[test]
fn waiting_for_the_pipe_ends_after_five_seconds() {
    assert!(!pipe_wait_over(1000, 1000));
    assert!(!pipe_wait_over(1000, 5999));
    assert!(pipe_wait_over(1000, 6000));
    assert!(pipe_wait_over(1000, 9000));
}
