use treeclean::config::parse_config;

#[test]
fn single_pattern() {
    assert_eq!(parse_config("testfile"), vec!["testfile".to_string()]);
}

#[test]
fn empty_text_yields_no_patterns() {
    assert_eq!(parse_config(""), Vec::<String>::new());
}

#[test]
fn empty_lines_and_comments_are_discarded() {
    let text = "first\n\n# a comment\nsecond\n#another\n";
    assert_eq!(parse_config(text), vec!["first".to_string(), "second".to_string()]);
}

#[test]
fn comment_marker_only_counts_at_line_start() {
    assert_eq!(parse_config("a#b"), vec!["a#b".to_string()]);
}

#[test]
fn kept_lines_are_verbatim() {
    // No trimming: inner and trailing spaces belong to the pattern.
    assert_eq!(parse_config(" spaced \nx"), vec![" spaced ".to_string(), "x".to_string()]);
}

#[test]
fn carriage_return_line_endings_are_stripped() {
    assert_eq!(parse_config("a\r\nb\r\n"), vec!["a".to_string(), "b".to_string()]);
}

#[test]
fn lone_carriage_return_at_end_is_kept() {
    // Only a carriage return standing right before a newline is part of the
    // line ending.
    assert_eq!(parse_config("a\r"), vec!["a\r".to_string()]);
}

#[test]
fn last_line_needs_no_newline() {
    assert_eq!(parse_config("a\nb"), vec!["a".to_string(), "b".to_string()]);
}
