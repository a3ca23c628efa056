use sexy_claude::mentions::{
    expanded_message, is_content_cuttable, limit_file_content, mention_paths, MAX_FILE_BYTES,
};

#[test]
fn mentions_none() {
    assert!(mention_paths("hello world").is_empty());
    assert_eq!(expanded_message("hello world", &vec![]), "hello world");
}

#[test]
fn mentions_email_not_a_mention() {
    assert!(mention_paths("send to user@example.com").is_empty());
}

#[test]
fn mentions_found_in_order() {
    assert_eq!(
        mention_paths("check @/nonexistent/path/xyz.rs and @src/main.rs\tplease @ @"),
        vec!["/nonexistent/path/xyz.rs".to_string(), "src/main.rs".to_string()]
    );
    assert_eq!(mention_paths("@start.txt"), vec!["start.txt".to_string()]);
    assert_eq!(mention_paths("@@x a@b"), vec!["@x".to_string()]);
}

#[test]
fn expanded_message_layout() {
    let files = vec![
        ("a.txt".to_string(), "alpha".to_string()),
        ("b.txt".to_string(), "beta".to_string()),
    ];
    assert_eq!(
        expanded_message("read @a.txt @b.txt", &files),
        "<file path=\"a.txt\">\nalpha\n</file>\n\n<file path=\"b.txt\">\nbeta\n</file>\n\nread @a.txt @b.txt"
    );
}

#[test]
fn file_content_limit() {
    assert_eq!(limit_file_content("small"), "small");
    let exact = "x".repeat(MAX_FILE_BYTES);
    assert_eq!(limit_file_content(&exact), exact);
    let big = "y".repeat(MAX_FILE_BYTES + 5);
    let cut = limit_file_content(&big);
    assert!(cut.starts_with(&"y".repeat(MAX_FILE_BYTES)));
    assert!(cut.ends_with("...\n[truncated, file is 100005 bytes]"));
    assert_eq!(cut.len(), MAX_FILE_BYTES + "...\n[truncated, file is 100005 bytes]".len());
    assert!(is_content_cuttable(&big));
    let odd = format!("{}é{}", "z".repeat(MAX_FILE_BYTES - 1), "z".repeat(10));
    assert!(!is_content_cuttable(&odd));
}

#[test]
fn test_expand_file_mentions_no_mentions() {
    let paths = mention_paths("hello world");
    assert!(paths.is_empty());
    assert_eq!(expanded_message("hello world", &vec![]), "hello world");
}

#[test]
fn test_expand_file_mentions_nonexistent_file() {
    // The mention is found, but no file could be read: the text stays as it is.
    let paths = mention_paths("check @/nonexistent/path/xyz.rs");
    assert_eq!(paths, vec!["/nonexistent/path/xyz.rs".to_string()]);
    assert_eq!(
        expanded_message("check @/nonexistent/path/xyz.rs", &vec![]),
        "check @/nonexistent/path/xyz.rs"
    );
}

#[test]
fn test_expand_file_mentions_email_not_expanded() {
    assert!(mention_paths("send to user@example.com").is_empty());
    assert_eq!(
        expanded_message("send to user@example.com", &vec![]),
        "send to user@example.com"
    );
}
