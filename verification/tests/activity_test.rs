use sexy_claude::activity::{session_diff_text, split_content_after, SplitContent};
use sexy_claude::conversation::{ContentBlock, Message, Role};
use sexy_claude::events::StreamEvent;

fn tool(id: &str, name: &str, input: &str) -> ContentBlock {
    ContentBlock::ToolUse { id: id.to_string(), name: name.to_string(), input: input.to_string() }
}

fn assistant(blocks: Vec<ContentBlock>) -> Message {
    Message { role: Role::Assistant, content: blocks }
}

#[test]
fn session_diff_collects_edits_and_writes() {
    let msgs = vec![
        Message { role: Role::User, content: vec![ContentBlock::Text("go".to_string())] },
        assistant(vec![
            ContentBlock::Text("editing".to_string()),
            tool("1", "Edit", r#"{"file_path":"a.rs","old_string":"x\n","new_string":"y\n"}"#),
            tool("2", "Read", r#"{"file_path":"b.rs"}"#),
            tool("3", "Write", r#"{"file_path":"c.txt","content":"one\ntwo"}"#),
            tool("4", "Edit", r#"{"file_path":"d.rs"}"#),
            tool("5", "Edit", "not json"),
        ]),
    ];
    assert_eq!(
        session_diff_text(&msgs),
        "--- a.rs\n+++ a.rs\n- x\n+ y\n\n+++ c.txt (new file, 2 lines)\n\n"
    );
    assert_eq!(session_diff_text(&vec![]), "");
}

#[test]
fn split_pane_follows_tools() {
    let none = SplitContent::FileContext(vec![]);
    let msgs = vec![assistant(vec![tool("t1", "Edit", r#"{"file_path":"m.rs","old_string":"a","new_string":"b"}"#)])];
    match split_content_after(&msgs, &none, &StreamEvent::MessageStop) {
        Some(SplitContent::DiffView(lines)) => {
            assert_eq!(lines, vec!["--- m.rs", "+++ m.rs", "- a", "+ b"]);
        }
        other => panic!("unexpected {:?}", other),
    }
    let msgs = vec![assistant(vec![tool("t2", "Read", r#"{"file_path":"r.rs"}"#)])];
    let pane = split_content_after(&msgs, &none, &StreamEvent::MessageStop).unwrap();
    match &pane {
        SplitContent::FilePreview(p, lines) => {
            assert_eq!(p, "r.rs");
            assert_eq!(lines, &vec!["Reading file...".to_string()]);
        }
        other => panic!("unexpected {:?}", other),
    }
    let result = StreamEvent::ToolResult {
        tool_use_id: "t2".to_string(),
        content: "l1\nl2\n".to_string(),
        is_error: false,
    };
    match split_content_after(&msgs, &pane, &result) {
        Some(SplitContent::FilePreview(p, lines)) => {
            assert_eq!(p, "r.rs");
            assert_eq!(lines, vec!["l1", "l2"]);
        }
        other => panic!("unexpected {:?}", other),
    }
    assert!(split_content_after(&msgs, &none, &result).is_none());
    let other = StreamEvent::ToolResult {
        tool_use_id: "zz".to_string(),
        content: "x".to_string(),
        is_error: false,
    };
    assert!(split_content_after(&msgs, &pane, &other).is_none());
    let msgs = vec![assistant(vec![tool("t3", "Bash", r#"{"command":"ls"}"#)])];
    assert!(split_content_after(&msgs, &none, &StreamEvent::MessageStop).is_none());
    let msgs = vec![assistant(vec![tool("t4", "Write", r#"{"content":"a\nb"}"#)])];
    match split_content_after(&msgs, &none, &StreamEvent::MessageStop) {
        Some(SplitContent::FilePreview(p, lines)) => {
            assert_eq!(p, "unknown");
            assert_eq!(lines, vec!["a", "b"]);
        }
        other => panic!("unexpected {:?}", other),
    }
}
