use nucleotide::command_system::{Command, CommandError, ParsedCommand, SplitDirection};

#[test]
fn test_parse_empty_command() {
    assert!(ParsedCommand::parse("").is_err());
    assert!(ParsedCommand::parse("   ").is_err());
}

#[test]
fn test_parse_simple_commands() {
    let cmd = ParsedCommand::parse("quit").unwrap();
    assert_eq!(cmd.name, "quit");
    assert_eq!(cmd.args, Vec::<String>::new());

    let cmd = ParsedCommand::parse("w").unwrap();
    assert_eq!(cmd.name, "w");
    assert_eq!(cmd.args, Vec::<String>::new());
}

#[test]
fn test_parse_commands_with_args() {
    let cmd = ParsedCommand::parse("write test.txt").unwrap();
    assert_eq!(cmd.name, "write");
    assert_eq!(cmd.args, vec!["test.txt"]);

    let cmd = ParsedCommand::parse("theme dark_plus").unwrap();
    assert_eq!(cmd.name, "theme");
    assert_eq!(cmd.args, vec!["dark_plus"]);
}

#[test]
fn test_parse_line_number() {
    let cmd = ParsedCommand::parse("42").unwrap();
    assert_eq!(cmd.name, "goto");
    assert_eq!(cmd.args, vec!["42"]);

    let cmd = ParsedCommand::parse("100").unwrap();
    assert_eq!(cmd.name, "goto");
    assert_eq!(cmd.args, vec!["100"]);
}

#[test]
fn test_command_exists() {
    let cmd = ParsedCommand::parse("quit").unwrap();
    assert!(cmd.command_exists());

    let cmd = ParsedCommand::parse("write").unwrap();
    assert!(cmd.command_exists());

    let cmd = ParsedCommand::parse("nonexistent").unwrap();
    assert!(!cmd.command_exists());
}

#[test]
fn test_typed_quit_command() {
    let parsed = ParsedCommand::parse("quit").unwrap();
    let cmd = Command::from_parsed(parsed).unwrap();
    assert_eq!(cmd, Command::Quit { force: false });

    let parsed = ParsedCommand::parse("quit !").unwrap();
    let cmd = Command::from_parsed(parsed).unwrap();
    assert_eq!(cmd, Command::Quit { force: true });

    let parsed = ParsedCommand::parse("q").unwrap();
    let cmd = Command::from_parsed(parsed).unwrap();
    assert_eq!(cmd, Command::Quit { force: false });
}

#[test]
fn test_typed_write_command() {
    let parsed = ParsedCommand::parse("write").unwrap();
    let cmd = Command::from_parsed(parsed).unwrap();
    assert_eq!(cmd, Command::Write { path: None });

    let parsed = ParsedCommand::parse("write test.txt").unwrap();
    let cmd = Command::from_parsed(parsed).unwrap();
    assert_eq!(
        cmd,
        Command::Write {
            path: Some("test.txt".to_string())
        }
    );

    let parsed = ParsedCommand::parse("w /path/to/file.rs").unwrap();
    let cmd = Command::from_parsed(parsed).unwrap();
    assert_eq!(
        cmd,
        Command::Write {
            path: Some("/path/to/file.rs".to_string())
        }
    );
}

#[test]
fn test_typed_goto_command() {
    let parsed = ParsedCommand::parse("goto 42").unwrap();
    let cmd = Command::from_parsed(parsed).unwrap();
    assert_eq!(cmd, Command::Goto { line: 42 });

    let parsed = ParsedCommand::parse("100").unwrap();
    let cmd = Command::from_parsed(parsed).unwrap();
    assert_eq!(cmd, Command::Goto { line: 100 });
}

#[test]
fn test_typed_theme_command() {
    let parsed = ParsedCommand::parse("theme dark_plus").unwrap();
    let cmd = Command::from_parsed(parsed).unwrap();
    assert_eq!(
        cmd,
        Command::Theme {
            name: "dark_plus".to_string()
        }
    );
}

#[test]
fn test_typed_split_commands() {
    let parsed = ParsedCommand::parse("split").unwrap();
    let cmd = Command::from_parsed(parsed).unwrap();
    assert_eq!(
        cmd,
        Command::Split {
            direction: SplitDirection::Horizontal
        }
    );

    let parsed = ParsedCommand::parse("vsplit").unwrap();
    let cmd = Command::from_parsed(parsed).unwrap();
    assert_eq!(
        cmd,
        Command::Split {
            direction: SplitDirection::Vertical
        }
    );
}

#[test]
fn test_command_round_trip() {
    let commands = vec![
        Command::Quit { force: false },
        Command::Quit { force: true },
        Command::Write { path: None },
        Command::Write {
            path: Some("test.txt".to_string()),
        },
        Command::Goto { line: 42 },
        Command::Theme {
            name: "dark_plus".to_string(),
        },
        Command::Split {
            direction: SplitDirection::Horizontal,
        },
        Command::Split {
            direction: SplitDirection::Vertical,
        },
    ];

    for cmd in commands {
        let parsed = cmd.to_parsed();
        let reconstructed = Command::from_parsed(parsed).unwrap();
        assert_eq!(cmd, reconstructed);
    }
}

#[test]
fn test_unknown_command() {
    let parsed = ParsedCommand::parse("nonexistent").unwrap();
    let result = Command::from_parsed(parsed);
    assert!(result.is_err());
    assert!(result.unwrap_err().message().contains("Unknown command"));
}

#[test]
fn test_display_parsed_command() {
    let cmd = ParsedCommand {
        name: "write".to_string(),
        args: vec!["test.txt".to_string()],
    };
    assert_eq!(cmd.to_display_string(), "write test.txt");

    let cmd = ParsedCommand {
        name: "quit".to_string(),
        args: vec![],
    };
    assert_eq!(cmd.to_display_string(), "quit");
}

// Further cases of the same functions.

#[test]
fn parse_trims_and_splits_on_whitespace() {
    let cmd = ParsedCommand::parse("  open   a.txt \t b.txt  ").unwrap();
    assert_eq!(cmd.name, "open");
    assert_eq!(cmd.args, vec!["a.txt", "b.txt"]);
}

#[test]
fn parse_leading_space_inside_is_error_free_after_trim() {
    // The line is trimmed first, so a leading space never yields an empty name.
    assert_eq!(ParsedCommand::parse(" quit").unwrap().name, "quit");
}

#[test]
fn parse_empty_errors_name_the_reason() {
    assert_eq!(ParsedCommand::parse("").unwrap_err(), CommandError::EmptyCommand);
    assert_eq!(ParsedCommand::parse("\t\n").unwrap_err().message(), "Empty command");
}

#[test]
fn goto_errors() {
    let parsed = ParsedCommand { name: "goto".to_string(), args: vec![] };
    assert_eq!(Command::from_parsed(parsed).unwrap_err(), CommandError::MissingLineNumber);
    let parsed = ParsedCommand { name: "goto".to_string(), args: vec!["4x".to_string()] };
    assert_eq!(Command::from_parsed(parsed).unwrap_err(), CommandError::InvalidLineNumber);
    let parsed = ParsedCommand {
        name: "goto".to_string(),
        args: vec!["99999999999999999999999".to_string()],
    };
    assert_eq!(Command::from_parsed(parsed).unwrap_err(), CommandError::InvalidLineNumber);
    let parsed = ParsedCommand { name: "goto".to_string(), args: vec!["+7".to_string()] };
    assert_eq!(Command::from_parsed(parsed).unwrap(), Command::Goto { line: 7 });
    let parsed = ParsedCommand { name: "goto".to_string(), args: vec!["+".to_string()] };
    assert_eq!(Command::from_parsed(parsed).unwrap_err(), CommandError::InvalidLineNumber);
}

#[test]
fn theme_and_open_need_an_argument() {
    let parsed = ParsedCommand { name: "theme".to_string(), args: vec![] };
    let err = Command::from_parsed(parsed).unwrap_err();
    assert_eq!(err, CommandError::MissingThemeName);
    assert_eq!(err.message(), "theme requires a theme name");
    let parsed = ParsedCommand { name: "o".to_string(), args: vec![] };
    let err = Command::from_parsed(parsed).unwrap_err();
    assert_eq!(err, CommandError::MissingFilePath);
    assert_eq!(err.message(), "open requires a file path");
    let parsed = ParsedCommand { name: "open".to_string(), args: vec!["x.rs".to_string()] };
    assert_eq!(Command::from_parsed(parsed).unwrap(), Command::Open { path: "x.rs".to_string() });
}

#[test]
fn close_write_quit_and_help() {
    let p = ParsedCommand::parse("bc !").unwrap();
    assert_eq!(Command::from_parsed(p).unwrap(), Command::Close { force: true });
    let p = ParsedCommand::parse("x").unwrap();
    assert_eq!(Command::from_parsed(p).unwrap(), Command::WriteQuit { force: false });
    let p = ParsedCommand::parse("h keys").unwrap();
    assert_eq!(
        Command::from_parsed(p).unwrap(),
        Command::Help { topic: Some("keys".to_string()) }
    );
}

#[test]
fn unknown_command_message_names_the_command() {
    let parsed = ParsedCommand::parse("frobnicate now").unwrap();
    let err = Command::from_parsed(parsed).unwrap_err();
    assert_eq!(err.message(), "Unknown command: frobnicate");
}

#[test]
fn to_parsed_uses_full_names() {
    assert_eq!(Command::Goto { line: 0 }.to_parsed().args, vec!["0"]);
    assert_eq!(Command::Goto { line: 1234 }.to_parsed().args, vec!["1234"]);
    let p = Command::Replace { pattern: "a".to_string(), replacement: "b".to_string() }.to_parsed();
    assert_eq!(p.name, "replace");
    assert_eq!(p.args, vec!["a", "b"]);
    assert!(Command::from_parsed(p).is_err());
    let p = Command::WriteQuit { force: true }.to_parsed();
    assert_eq!(p.to_display_string(), "wq !");
}

#[test]
fn descriptions() {
    let p = ParsedCommand::parse("q").unwrap();
    assert_eq!(p.description(), Some("Close the current view."));
    let p = ParsedCommand::parse("split").unwrap();
    assert_eq!(p.description(), None);
}

#[test]
fn parsed_from_typed_is_stable() {
    let p = ParsedCommand::parse("q !").unwrap();
    let c = Command::from_parsed(p).unwrap();
    let again = Command::from_parsed(c.to_parsed()).unwrap();
    assert_eq!(c, again);
}

#[test]
fn typed_commands_run_as_command_lines() {
    assert_eq!(Command::Quit { force: true }.command_line(), "quit !");
    assert_eq!(Command::Quit { force: false }.command_line(), "quit");
    assert_eq!(Command::Write { path: Some("a.txt".to_string()) }.command_line(), "write a.txt");
    assert_eq!(Command::Write { path: None }.command_line(), "write");
    assert_eq!(Command::WriteQuit { force: true }.command_line(), "wq !");
    assert_eq!(Command::Goto { line: 120 }.command_line(), "goto 120");
    assert_eq!(Command::Theme { name: "onedark".to_string() }.command_line(), "theme onedark");
    assert_eq!(Command::Open { path: "src/main.rs".to_string() }.command_line(), "open src/main.rs");
    assert_eq!(Command::Split { direction: SplitDirection::Horizontal }.command_line(), "split");
    assert_eq!(Command::Split { direction: SplitDirection::Vertical }.command_line(), "vsplit");
    assert_eq!(Command::Close { force: false }.command_line(), "close");
    assert_eq!(Command::Help { topic: Some("keys".to_string()) }.command_line(), "help keys");
    assert_eq!(Command::Help { topic: None }.command_line(), "help");
    assert_eq!(Command::Search { pattern: "foo".to_string() }.command_line(), "search foo");
    assert_eq!(
        Command::Replace { pattern: "a".to_string(), replacement: "b".to_string() }.command_line(),
        "replace a b"
    );
    let parsed = ParsedCommand::parse("buffer-close-all !").unwrap();
    assert_eq!(Command::Generic(parsed).command_line(), "buffer-close-all !");
}

#[test]
fn parsing_the_text_of_a_command_gives_it_back() {
    for line in ["write notes.txt", "vsplit", "theme onedark light", "buffer-close-all !"] {
        let parsed = ParsedCommand::parse(line).unwrap();
        let again = ParsedCommand::parse(&parsed.to_display_string()).unwrap();
        assert_eq!(again, parsed);
    }
}
