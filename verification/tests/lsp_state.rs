use nucleotide::lsp_state::{
    spinner_frame, DiagnosticInfo, LanguageServerId, LspState, ServerStatus, SPINNER_FRAME_COUNT,
};

fn diag(text: &str, server: u64) -> DiagnosticInfo<String> {
    DiagnosticInfo { diagnostic: text.to_string(), server_id: LanguageServerId(server) }
}

#[test]
fn new_state_is_empty_and_idle() {
    let mut state: LspState<String> = LspState::new(0);
    assert!(!state.has_any_lsp_server());
    assert!(!state.is_busy());
    assert!(!state.should_show_spinner());
    assert_eq!(state.running_servers_count(), 0);
    assert_eq!(state.status_string(), None);
    assert_eq!(state.get_lsp_indicator(1000), None);
}

#[test]
fn registered_server_starts_and_shows_spinner() {
    let mut state: LspState<String> = LspState::new(0);
    state.register_server(LanguageServerId(1), "rust-analyzer".to_string(), None);
    assert!(state.has_any_lsp_server());
    assert!(matches!(state.servers()[0].status, ServerStatus::Starting));
    assert!(state.should_show_spinner());
    assert_eq!(state.running_servers_count(), 0);
    // 100 ms after the last move the spinner moves to its second frame.
    assert_eq!(state.get_lsp_indicator(100), Some("⣽".to_string()));
    // 20 ms later it stays.
    assert_eq!(state.get_lsp_indicator(120), Some("⣽".to_string()));
}

#[test]
fn capabilities_make_a_server_running_and_idle_indicator_is_a_dot() {
    let mut state: LspState<String> = LspState::new(0);
    state.register_server(LanguageServerId(1), "rust-analyzer".to_string(), Some("file:///p".to_string()));
    state.update_server_capabilities(LanguageServerId(1), serde_json::Value::Null);
    assert!(matches!(state.servers()[0].status, ServerStatus::Running));
    assert_eq!(state.running_servers_count(), 1);
    assert!(!state.should_show_spinner());
    assert_eq!(state.get_lsp_indicator(5000), Some("◉".to_string()));
}

#[test]
fn registering_again_replaces_the_server() {
    let mut state: LspState<String> = LspState::new(0);
    state.register_server(LanguageServerId(1), "a".to_string(), None);
    state.update_server_status(LanguageServerId(1), ServerStatus::Running);
    state.register_server(LanguageServerId(1), "b".to_string(), None);
    assert_eq!(state.servers().len(), 1);
    assert_eq!(state.servers()[0].name, "b");
    assert!(matches!(state.servers()[0].status, ServerStatus::Starting));
}

#[test]
fn unknown_server_updates_change_nothing() {
    let mut state: LspState<String> = LspState::new(0);
    state.register_server(LanguageServerId(1), "a".to_string(), None);
    state.update_server_status(LanguageServerId(2), ServerStatus::Stopped);
    assert!(matches!(state.servers()[0].status, ServerStatus::Starting));
}

#[test]
fn progress_text_joins_title_message_and_percentage() {
    let mut state: LspState<String> = LspState::new(0);
    state.register_server(LanguageServerId(1), "ra".to_string(), None);
    state.start_progress(LanguageServerId(1), "t1".to_string(), "Indexing".to_string());
    state.update_progress(LanguageServerId(1), "t1".to_string(), Some("crates".to_string()), Some(42));
    state.start_progress(LanguageServerId(1), "t2".to_string(), "Loading".to_string());
    assert!(state.is_busy());
    assert_eq!(state.active_progress().len(), 2);
    assert_eq!(state.status_string(), Some("Indexing: crates (42%), Loading".to_string()));
    // Updating with nothing keeps what was there.
    state.update_progress(LanguageServerId(1), "t1".to_string(), None, None);
    assert_eq!(state.status_string(), Some("Indexing: crates (42%), Loading".to_string()));
    state.end_progress(LanguageServerId(1), "t1".to_string());
    assert_eq!(state.status_string(), Some("Loading".to_string()));
    state.end_progress(LanguageServerId(1), "t2".to_string());
    assert_eq!(state.status_string(), None);
    assert!(!state.is_busy());
}

#[test]
fn status_message_comes_first() {
    let mut state: LspState<String> = LspState::new(0);
    state.start_progress(LanguageServerId(1), "t".to_string(), "Indexing".to_string());
    state.set_status_message(Some("Ready".to_string()));
    assert_eq!(state.status_string(), Some("Ready".to_string()));
}

#[test]
fn indicator_shows_latest_progress_and_cuts_long_messages() {
    let mut state: LspState<String> = LspState::new(0);
    state.register_server(LanguageServerId(1), "ra".to_string(), None);
    state.update_server_status(LanguageServerId(1), ServerStatus::Running);
    state.start_progress(LanguageServerId(1), "t".to_string(), "Indexing".to_string());
    state.update_progress(LanguageServerId(1), "t".to_string(), None, Some(7));
    assert_eq!(state.get_lsp_indicator(10), Some("⣾ Indexing (7%)".to_string()));
    state.update_progress(
        LanguageServerId(1),
        "t".to_string(),
        Some("a very long message about many crates".to_string()),
        None,
    );
    let text = state.get_lsp_indicator(20).unwrap();
    // The message part is 37 characters followed by three dots.
    assert_eq!(text, "⣾ Indexing: a very long message about m...".to_string());
    let message = text.split_once(' ').unwrap().1;
    assert_eq!(message.chars().count(), 40);
}

#[test]
fn indicator_shows_the_most_recently_started_operation() {
    let mut state: LspState<String> = LspState::new(0);
    state.register_server(LanguageServerId(1), "ra".to_string(), None);
    state.update_server_status(LanguageServerId(1), ServerStatus::Running);
    state.start_progress(LanguageServerId(1), "a".to_string(), "A".to_string());
    state.start_progress(LanguageServerId(1), "b".to_string(), "B".to_string());
    assert_eq!(state.get_lsp_indicator(10), Some("\u{28fe} B".to_string()));
}

#[test]
fn indicator_counts_characters_not_bytes() {
    let mut state: LspState<String> = LspState::new(0);
    state.register_server(LanguageServerId(1), "ra".to_string(), None);
    state.update_server_status(LanguageServerId(1), ServerStatus::Running);
    // Forty two-byte characters fit; forty-one do not.
    let forty: String = std::iter::repeat('\u{e9}').take(40).collect();
    state.start_progress(LanguageServerId(1), "t".to_string(), forty.clone());
    let text = state.get_lsp_indicator(10).unwrap();
    assert_eq!(text.split_once(' ').unwrap().1, forty);
    let forty_one: String = std::iter::repeat('\u{e9}').take(41).collect();
    state.start_progress(LanguageServerId(1), "u".to_string(), forty_one);
    let text = state.get_lsp_indicator(20).unwrap();
    let expected: String = std::iter::repeat('\u{e9}').take(37).chain("...".chars()).collect();
    assert_eq!(text.split_once(' ').unwrap().1, expected);
}

#[test]
fn spinner_frames_cycle() {
    let mut state: LspState<String> = LspState::new(0);
    let mut seen = Vec::new();
    for step in 1..=SPINNER_FRAME_COUNT as u64 + 1 {
        seen.push(state.get_spinner_frame(step * 80).to_string());
    }
    assert_eq!(seen[0], spinner_frame(1));
    assert_eq!(seen[SPINNER_FRAME_COUNT - 1], spinner_frame(0));
    assert_eq!(seen[SPINNER_FRAME_COUNT], spinner_frame(1));
}

#[test]
fn spinner_does_not_move_when_the_clock_goes_back() {
    let mut state: LspState<String> = LspState::new(1000);
    assert_eq!(state.get_spinner_frame(10), spinner_frame(0));
}

#[test]
fn diagnostics_read_back_what_was_set() {
    let mut state: LspState<String> = LspState::new(0);
    state.set_diagnostics("file:///a.rs".to_string(), vec![diag("unused", 1)]);
    assert_eq!(state.get_diagnostics("file:///a.rs").unwrap().len(), 1);
    assert_eq!(state.get_diagnostics("file:///a.rs").unwrap()[0].diagnostic, "unused");
    assert!(state.get_diagnostics("file:///b.rs").is_none());
    state.set_diagnostics("file:///a.rs".to_string(), vec![diag("x", 1), diag("y", 2)]);
    assert_eq!(state.get_diagnostics("file:///a.rs").unwrap().len(), 2);
    state.set_diagnostics("file:///a.rs".to_string(), Vec::new());
    assert!(state.get_diagnostics("file:///a.rs").is_none());
}

#[test]
fn removing_a_server_drops_its_progress_and_diagnostics() {
    let mut state: LspState<String> = LspState::new(0);
    state.register_server(LanguageServerId(1), "a".to_string(), None);
    state.register_server(LanguageServerId(2), "b".to_string(), None);
    state.start_progress(LanguageServerId(1), "t".to_string(), "One".to_string());
    state.start_progress(LanguageServerId(2), "t".to_string(), "Two".to_string());
    state.set_diagnostics("file:///a.rs".to_string(), vec![diag("x", 1)]);
    state.set_diagnostics("file:///b.rs".to_string(), vec![diag("y", 1), diag("z", 2)]);
    state.remove_server(LanguageServerId(1));
    assert_eq!(state.servers().len(), 1);
    assert_eq!(state.servers()[0].id, LanguageServerId(2));
    assert_eq!(state.status_string(), Some("Two".to_string()));
    assert!(state.get_diagnostics("file:///a.rs").is_none());
    let left = state.get_diagnostics("file:///b.rs").unwrap();
    assert_eq!(left.len(), 1);
    assert_eq!(left[0].diagnostic, "z");
}

#[test]
fn syncing_adds_new_servers_as_running_and_resets_progress() {
    let mut state: LspState<String> = LspState::new(0);
    state.register_server(LanguageServerId(1), "rust-analyzer".to_string(), None);
    state.start_progress(LanguageServerId(1), "index".to_string(), "Indexing".to_string());
    state.sync_servers(
        vec![
            (LanguageServerId(1), "rust-analyzer".to_string()),
            (LanguageServerId(2), "taplo".to_string()),
        ],
        &vec![LanguageServerId(2), LanguageServerId(2)],
    );
    let servers = state.servers();
    assert_eq!(servers.len(), 2);
    // The known server keeps its status; the new one is running.
    assert!(matches!(servers[0].status, ServerStatus::Starting));
    assert_eq!(servers[1].name, "taplo");
    assert!(matches!(servers[1].status, ServerStatus::Running));
    let progress = state.active_progress();
    assert_eq!(progress.len(), 1);
    assert_eq!(progress[0].server_id, LanguageServerId(2));
    assert_eq!(progress[0].token, "lsp");
    assert_eq!(progress[0].title, "Processing...");
}
