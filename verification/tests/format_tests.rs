use raft::command::{is_blank, is_whitespace, parse_set_command, split_whitespace_spans};
use raft::log_line::{format_log_line, format_snapshot, parse_log_line};

#[test]
fn log_line_round_trip() {
    let line = format_log_line("key", "va:lue");
    assert_eq!(line, "key:va:lue");
    assert_eq!(parse_log_line(&line), Some(("key".to_string(), "va:lue".to_string())));
}

#[test]
fn log_line_without_colon_is_rejected() {
    assert_eq!(parse_log_line("no colon here"), None);
    assert_eq!(parse_log_line(""), None);
}

#[test]
fn log_line_splits_at_first_colon_with_unicode() {
    assert_eq!(parse_log_line("é:ü:x"), Some(("é".to_string(), "ü:x".to_string())));
    assert_eq!(parse_log_line("k:"), Some(("k".to_string(), String::new())));
}

#[test]
fn snapshot_lines_are_log_lines() {
    let es = vec![("a".to_string(), "1".to_string()), ("b".to_string(), "2".to_string())];
    assert_eq!(format_snapshot(&es), vec!["a:1".to_string(), "b:2".to_string()]);
}

#[test]
fn whitespace_matches_std() {
    for c in ['\t', '\n', '\u{b}', '\u{c}', '\r', ' ', '\u{85}', '\u{a0}', '\u{1680}', '\u{2000}', '\u{200a}',
        '\u{2028}', '\u{2029}', '\u{202f}', '\u{205f}', '\u{3000}', 'a', '0', '\u{200b}', '\u{feff}', 'é'] {
        assert_eq!(is_whitespace(c), c.is_whitespace(), "{:?}", c);
    }
}

#[test]
fn words_match_split_whitespace() {
    for s in ["", "   ", "set a b", "  set   a\tb  ", "one", "a b c d", "x\u{3000}y"] {
        let spans = split_whitespace_spans(s);
        let chars: Vec<char> = s.chars().collect();
        let words: Vec<String> = spans.iter().map(|(a, b)| chars[*a..*b].iter().collect()).collect();
        let expected: Vec<String> = s.split_whitespace().map(|w| w.to_string()).collect();
        assert_eq!(words, expected, "{:?}", s);
    }
}

#[test]
fn set_commands_are_parsed() {
    assert_eq!(parse_set_command("set foo 42"), Some(("foo".to_string(), "42".to_string())));
    assert_eq!(parse_set_command("  set\tfoo   42 "), Some(("foo".to_string(), "42".to_string())));
    assert_eq!(parse_set_command("set foo"), None);
    assert_eq!(parse_set_command("set foo 1 2"), None);
    assert_eq!(parse_set_command("get foo 1"), None);
    assert_eq!(parse_set_command("SET foo 1"), None);
}

#[test]
fn blank_lines_match_trim() {
    for s in ["", "  ", "\t\r", "\u{3000}", " x ", "{}", "\u{200b}"] {
        assert_eq!(is_blank(s), s.trim().is_empty(), "{:?}", s);
    }
}
