use nucleotide::prompt_state::{PromptCompletion, PromptOutcome, PromptState};

fn completion(text: &str) -> PromptCompletion {
    PromptCompletion { text: text.to_string(), description: None }
}

#[test]
fn typing_inserts_at_the_cursor() {
    let mut p = PromptState::new(":".to_string());
    assert_eq!(p.prompt(), ":");
    assert_eq!(p.handle_key("w"), PromptOutcome::Changed("w".to_string()));
    assert_eq!(p.handle_key("q"), PromptOutcome::Changed("wq".to_string()));
    assert_eq!(p.handle_key("left"), PromptOutcome::Nothing);
    assert_eq!(p.handle_key("!"), PromptOutcome::Changed("w!q".to_string()));
    assert_eq!(p.cursor_position(), 2);
    assert_eq!(p.handle_key("backspace"), PromptOutcome::Changed("wq".to_string()));
    assert_eq!(p.cursor_position(), 1);
    assert_eq!(p.handle_key("enter"), PromptOutcome::Submitted("wq".to_string()));
}

#[test]
fn keys_that_do_not_type_change_nothing() {
    let mut p = PromptState::new(":".to_string());
    assert_eq!(p.handle_key("\t"), PromptOutcome::Nothing);
    assert_eq!(p.handle_key("f1"), PromptOutcome::Nothing);
    assert_eq!(p.handle_key("backspace"), PromptOutcome::Nothing);
    assert_eq!(p.input(), "");
    assert_eq!(p.handle_key("escape"), PromptOutcome::Cancelled);
}

#[test]
fn cursor_stays_within_the_input() {
    let mut p = PromptState::new(":".to_string());
    p.set_text("abc");
    assert_eq!(p.cursor_position(), 3);
    p.move_cursor(5);
    assert_eq!(p.cursor_position(), 3);
    p.move_cursor(-10);
    assert_eq!(p.cursor_position(), 0);
    p.set_text("é");
    assert_eq!(p.cursor_position(), 2);
}

#[test]
fn completions_are_selected_and_accepted() {
    let mut p = PromptState::new(":".to_string());
    p.set_completions(vec![completion("write"), completion("wq"), completion("wqa")]);
    assert!(p.showing_completions());
    assert_eq!(p.handle_key("down"), PromptOutcome::Nothing);
    assert_eq!(p.handle_key("down"), PromptOutcome::Nothing);
    assert_eq!(p.handle_key("down"), PromptOutcome::Nothing);
    assert_eq!(p.completion_selection(), 2);
    assert_eq!(p.handle_key("up"), PromptOutcome::Nothing);
    assert_eq!(p.completion_selection(), 1);
    assert_eq!(p.handle_key("tab"), PromptOutcome::Changed("wq".to_string()));
    assert!(!p.showing_completions());
    assert_eq!(p.cursor_position(), 2);
    // Hidden completions: Enter submits.
    assert_eq!(p.handle_key("enter"), PromptOutcome::Submitted("wq".to_string()));
}

#[test]
fn escape_hides_completions_before_cancelling() {
    let mut p = PromptState::new(":".to_string());
    p.set_completions(vec![completion("quit")]);
    assert_eq!(p.handle_key("escape"), PromptOutcome::Nothing);
    assert!(!p.showing_completions());
    assert_eq!(p.handle_key("escape"), PromptOutcome::Cancelled);
    p.set_completions(Vec::new());
    assert!(!p.showing_completions());
    assert!(!p.accept_completion());
}
