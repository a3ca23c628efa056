use sexy_claude::sessions::{
    age_label_of, first_user_text, is_preview_cuttable, slug_to_path, truncate_preview, SessionInfo,
};

#[test]
fn test_truncate_preview_short() {
    assert_eq!(truncate_preview("Hello world"), "Hello world");
}

#[test]
fn test_truncate_preview_long() {
    let long = "a".repeat(100);
    assert!(is_preview_cuttable(&long));
    let result = truncate_preview(&long);
    assert!(result.len() <= 80);
    assert!(result.ends_with("..."));
}

#[test]
fn test_truncate_preview_multiline() {
    assert_eq!(truncate_preview("First line\nSecond line"), "First line");
}

#[test]
fn test_slug_to_path() {
    assert_eq!(
        slug_to_path("-Users-magnuspladsen-git-sexy-agent-code"),
        "agent/code"
    );
}

#[test]
fn test_slug_to_path_short() {
    assert_eq!(slug_to_path("-Users-magnuspladsen"), "Users/magnuspladsen");
}

#[test]
fn test_age_string_just_now() {
    let info = SessionInfo {
        session_id: "test".to_string(),
        project_path: "test".to_string(),
        last_modified: std::time::SystemTime::now(),
        preview: String::new(),
    };
    assert_eq!(info.age_string(), "just now");
}

#[test]
fn truncate_preview_exact_cut() {
    let long = "b".repeat(81);
    let result = truncate_preview(&long);
    assert_eq!(result, format!("{}...", "b".repeat(77)));
    assert_eq!(truncate_preview(&"c".repeat(80)), "c".repeat(80));
}

#[test]
fn truncate_preview_trims_and_strips_cr() {
    assert_eq!(truncate_preview("   padded  \r\nnext"), "padded");
    assert_eq!(truncate_preview(""), "");
}

#[test]
fn preview_not_cuttable_inside_a_character() {
    // 76 ASCII bytes then a 2-byte character spanning bytes 76..78.
    let text = format!("{}é{}", "a".repeat(76), "z".repeat(10));
    assert!(!is_preview_cuttable(&text));
    assert!(is_preview_cuttable("short"));
}

#[test]
fn age_labels() {
    assert_eq!(age_label_of(0), "just now");
    assert_eq!(age_label_of(59), "just now");
    assert_eq!(age_label_of(60), "1m ago");
    assert_eq!(age_label_of(3599), "59m ago");
    assert_eq!(age_label_of(3600), "1h ago");
    assert_eq!(age_label_of(7200), "2h ago");
    assert_eq!(age_label_of(86400), "1d ago");
    assert_eq!(age_label_of(3 * 86400 + 5), "3d ago");
}

#[test]
fn slug_edge_cases() {
    assert_eq!(slug_to_path(""), "");
    assert_eq!(slug_to_path("---"), "");
    assert_eq!(slug_to_path("single"), "single");
    assert_eq!(slug_to_path("a--b-c"), "b/c");
}

#[test]
fn preview_from_string_content() {
    let content = r#"{"type":"user","message":{"role":"user","content":"Hello there"},"timestamp":"2026-01-01T00:00:00Z"}"#;
    assert_eq!(first_user_text(content), Some("Hello there".to_string()));
}

#[test]
fn preview_from_array_content() {
    let content = r#"{"type":"user","message":{"role":"user","content":[{"type":"image"},{"type":"text","text":"Array content"}]},"timestamp":"2026-01-01T00:00:00Z"}"#;
    assert_eq!(first_user_text(content), Some("Array content".to_string()));
}

#[test]
fn preview_skips_other_records_and_bad_lines() {
    let content = "not json\n{\"type\":\"system\"}\n{\"type\":\"user\",\"message\":{\"content\":\"second\"}}";
    assert_eq!(first_user_text(content), Some("second".to_string()));
    assert_eq!(first_user_text(""), None);
}

#[test]
fn preview_only_first_twenty_lines() {
    let mut content = String::new();
    for _ in 0..20 {
        content.push_str("{}\n");
    }
    content.push_str("{\"type\":\"user\",\"message\":{\"content\":\"late\"}}\n");
    assert_eq!(first_user_text(&content), None);
}
