use nucleotide::prefix_extraction::PrefixExtractor;

#[test]
fn test_basic_identifier_extraction() {
    let extractor = PrefixExtractor::new();

    let (prefix, is_trigger) = extractor.extract_prefix("let variable_name", 17);
    assert_eq!(prefix, "variable_name");
    assert!(!is_trigger);

    let (prefix, is_trigger) = extractor.extract_prefix("let var", 7);
    assert_eq!(prefix, "var");
    assert!(!is_trigger);
}

#[test]
fn test_dot_notation_completion() {
    let extractor = PrefixExtractor::new();

    let (prefix, is_trigger) = extractor.extract_prefix("client.method", 13);
    assert_eq!(prefix, "method");
    assert!(is_trigger);

    let (prefix, is_trigger) = extractor.extract_prefix("client.", 7);
    assert_eq!(prefix, "");
    assert!(is_trigger);

    let (prefix, is_trigger) = extractor.extract_prefix("obj.method().another", 20);
    assert_eq!(prefix, "another");
    assert!(is_trigger);
}

#[test]
fn test_language_specific_features() {
    let mut extractor = PrefixExtractor::new();
    extractor.configure_for_language("rust");

    let (prefix, is_trigger) = extractor.extract_prefix("std::collections::HashMap", 25);
    assert_eq!(prefix, "HashMap");
    assert!(is_trigger);
}

#[test]
fn test_separators_end_completion() {
    let extractor = PrefixExtractor::new();

    let (prefix, is_trigger) = extractor.extract_prefix("function(param", 14);
    assert_eq!(prefix, "param");
    assert!(!is_trigger);

    let (prefix, is_trigger) = extractor.extract_prefix("func(a, b", 9);
    assert_eq!(prefix, "b");
    assert!(!is_trigger);
}

// Further cases.

#[test]
fn empty_line_or_column_zero_gives_nothing() {
    let extractor = PrefixExtractor::new();
    assert_eq!(extractor.extract_prefix("", 3), (String::new(), false));
    assert_eq!(extractor.extract_prefix("abc", 0), (String::new(), false));
}

#[test]
fn column_past_the_end_uses_whole_line() {
    let extractor = PrefixExtractor::new();
    assert_eq!(extractor.extract_prefix("foo.ba", 99), ("ba".to_string(), true));
}

#[test]
fn cursor_in_the_middle() {
    let extractor = PrefixExtractor::new();
    assert_eq!(extractor.extract_prefix("alpha beta", 3), ("alp".to_string(), false));
}

#[test]
fn non_identifier_character_stops_the_prefix() {
    let extractor = PrefixExtractor::new();
    assert_eq!(extractor.extract_prefix("a+bc", 4), ("bc".to_string(), false));
    assert_eq!(extractor.extract_prefix("x = $foo-bar@", 13), ("$foo-bar@".to_string(), false));
}

#[test]
fn multibyte_text_before_the_cursor() {
    let extractor = PrefixExtractor::new();
    // "é" takes two bytes; the cursor sits after "café." (7 bytes).
    assert_eq!(extractor.extract_prefix("café.x", 7), ("x".to_string(), true));
}

#[test]
fn trigger_after_separator_is_not_a_trigger_context() {
    let extractor = PrefixExtractor::new();
    let chars: Vec<char> = "a.b c".chars().collect();
    assert!(!extractor.is_trigger_context(&chars));
    let chars: Vec<char> = "a.b".chars().collect();
    assert!(extractor.is_trigger_context(&chars));
    assert_eq!(extractor.extract_trigger_prefix(&chars), ("b".to_string(), true));
    let chars: Vec<char> = "xy".chars().collect();
    assert_eq!(extractor.extract_trigger_prefix(&chars), ("xy".to_string(), false));
    assert_eq!(extractor.extract_identifier_prefix(&chars), ("xy".to_string(), false));
}

#[test]
fn php_arrow_triggers_and_c_scope() {
    let mut extractor = PrefixExtractor::new();
    extractor.configure_for_language("php");
    assert_eq!(extractor.extract_prefix("$this->na", 9), ("na".to_string(), true));
    let mut extractor = PrefixExtractor::new();
    extractor.configure_for_language("cpp");
    assert_eq!(extractor.extract_prefix("std::vec", 8), ("vec".to_string(), true));
    let mut extractor = PrefixExtractor::new();
    extractor.configure_for_language("plain");
    assert_eq!(extractor.extract_prefix("a-b", 3), ("a-b".to_string(), false));
}

#[test]
fn configuring_twice_changes_nothing_more() {
    let mut once = PrefixExtractor::new();
    once.configure_for_language("css");
    let mut twice = PrefixExtractor::new();
    twice.configure_for_language("css");
    twice.configure_for_language("css");
    for line in ["a:b", "x-y", "p.q", "m n"] {
        assert_eq!(once.extract_prefix(line, line.len()), twice.extract_prefix(line, line.len()));
    }
}
