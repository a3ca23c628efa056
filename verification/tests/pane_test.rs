use sexy_claude::pane::{display_width, extract_primary_arg, split_at_width, split_at_width_word_boundary};

#[test]
fn test_display_width() {
    assert_eq!(display_width("hello"), 5);
    assert_eq!(display_width(""), 0);
}

#[test]
fn test_extract_primary_arg_bash() {
    let arg = extract_primary_arg("Bash", r#"{"command":"ls -la"}"#);
    assert_eq!(arg.as_deref(), Some("ls -la"));
}

#[test]
fn test_extract_primary_arg_read() {
    let arg = extract_primary_arg("Read", r#"{"file_path":"src/main.rs"}"#);
    assert_eq!(arg.as_deref(), Some("src/main.rs"));
}

#[test]
fn test_extract_primary_arg_invalid_json() {
    let arg = extract_primary_arg("Bash", "not json");
    assert!(arg.is_none());
}

#[test]
fn primary_arg_other_tools_and_values() {
    assert_eq!(extract_primary_arg("WebFetch", r#"{"url":"http://x","query":"q"}"#).as_deref(), Some("q"));
    assert_eq!(extract_primary_arg("Grep", r#"{"pattern":"fn main"}"#).as_deref(), Some("fn main"));
    assert_eq!(extract_primary_arg("Bash", r#"{"command":42}"#).as_deref(), Some("42"));
    assert_eq!(extract_primary_arg("Bash", r#"{"command":[1,true,null]}"#).as_deref(), Some("[1,true,null]"));
    assert_eq!(extract_primary_arg("Bash", r#"{"other":"x"}"#), None);
    assert_eq!(extract_primary_arg("Other", r#"{"x":"y"}"#), None);
    assert_eq!(extract_primary_arg("Bash", r#"["ls"]"#), None);
}

#[test]
fn widths_of_wide_and_control_characters() {
    assert_eq!(display_width("漢字"), 4);
    assert_eq!(display_width("a\u{7}b"), 2);
}

#[test]
fn forced_split() {
    assert_eq!(split_at_width("hello world", 5), ("hello", " world"));
    assert_eq!(split_at_width("abc", 10), ("abc", ""));
    assert_eq!(split_at_width("漢字x", 3), ("漢", "字x"));
    assert_eq!(split_at_width("abc", 0), ("", "abc"));
}

#[test]
fn word_split() {
    assert_eq!(split_at_width_word_boundary("hello big world", 11), ("hello big ", "world"));
    assert_eq!(split_at_width_word_boundary("hello   world", 7), ("hello  ", "world"));
    assert_eq!(split_at_width_word_boundary("helloworld", 5), ("hello", "world"));
    assert_eq!(split_at_width_word_boundary("short", 10), ("short", ""));
    assert_eq!(split_at_width_word_boundary(" abcdef", 3), (" ", "abcdef"));
}
