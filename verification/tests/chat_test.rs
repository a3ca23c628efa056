use sexy_claude::chat::{
    conversation_lines, progress_line, tool_result_lines, wrap_spans, ChatSpan, ChatTone,
};
use sexy_claude::conversation::{ContentBlock, Conversation, Message, Role};

const LABEL: &str = " Agent ";

fn render(conv: &Conversation, width: usize) -> Vec<Vec<ChatSpan>> {
    conversation_lines(&conv.messages, width, LABEL).expect("conversation lays out")
}

fn all_text(lines: &[Vec<ChatSpan>]) -> String {
    lines.iter().flat_map(|l| l.iter()).map(|s| s.text.as_str()).collect()
}

fn assistant(blocks: Vec<ContentBlock>) -> Message {
    Message { role: Role::Assistant, content: blocks }
}

fn tool(id: &str, name: &str, input: &str) -> ContentBlock {
    ContentBlock::ToolUse { id: id.to_string(), name: name.to_string(), input: input.to_string() }
}

fn result(id: &str, content: &str, is_error: bool, collapsed: bool) -> ContentBlock {
    ContentBlock::ToolResult {
        tool_use_id: id.to_string(),
        content: content.to_string(),
        is_error,
        collapsed,
    }
}

#[test]
fn test_empty_conversation_renders() {
    let conv = Conversation::new();
    assert!(render(&conv, 80).is_empty());
}

#[test]
fn test_user_message_has_label() {
    let mut conv = Conversation::new();
    conv.push_user_message("Hello".to_string());
    let lines = render(&conv, 80);
    assert!(!lines.is_empty());
    let label: String = lines[0].iter().map(|s| s.text.as_str()).collect();
    assert!(label.contains("You"));
    assert_eq!(lines[0][0].tone, ChatTone::UserLabel);
    assert_eq!(lines[1].len(), 2);
    assert_eq!(lines[1][0].text, "  ");
    assert_eq!(lines[1][1].text, "Hello");
    assert_eq!(lines[1][1].tone, ChatTone::UserText);
}

#[test]
fn test_assistant_message_has_label() {
    let mut conv = Conversation::new();
    conv.messages.push(assistant(vec![ContentBlock::Text("Hi there".to_string())]));
    let lines = render(&conv, 80);
    assert!(!lines.is_empty());
    let label: String = lines[0].iter().map(|s| s.text.as_str()).collect();
    assert!(label.contains("Agent"));
    assert_eq!(lines[0][0].tone, ChatTone::AssistantLabel);
}

#[test]
fn test_code_block_rendering() {
    let mut conv = Conversation::new();
    conv.messages.push(assistant(vec![ContentBlock::Text(
        "Here is code:\n```rust\nfn main() {}\n```\nDone.".to_string(),
    )]));
    let lines = render(&conv, 80);
    assert!(lines.len() >= 5, "Got {} lines", lines.len());
}

#[test]
fn test_tool_use_rendering() {
    let mut conv = Conversation::new();
    conv.messages.push(assistant(vec![tool("t1", "Bash", "{\"command\":\"ls\"}")]));
    let lines = render(&conv, 80);
    let text = all_text(&lines);
    assert!(text.contains("Bash"));
    assert!(text.contains("ls"));
    assert_eq!(lines[1][0].text, "  > Bash");
    assert_eq!(lines[1][0].tone, ChatTone::ToolName);
    assert_eq!(lines[1][1].text, ": ls");
}

#[test]
fn test_tool_use_read_rendering() {
    let mut conv = Conversation::new();
    conv.messages.push(assistant(vec![tool("t2", "Read", "{\"file_path\":\"src/main.rs\"}")]));
    let text = all_text(&render(&conv, 80));
    assert!(text.contains("Read"));
    assert!(text.contains("src/main.rs"));
}

#[test]
fn test_tool_result_renders_inline() {
    let mut conv = Conversation::new();
    conv.messages.push(assistant(vec![
        tool("t1", "Bash", "{\"command\":\"echo hi\"}"),
        result("t1", "hi\n", false, false),
    ]));
    let lines = render(&conv, 80);
    let text = all_text(&lines);
    assert!(text.contains("Bash"));
    assert!(text.contains("hi"));
    assert_eq!(lines[2][0].text, "    hi");
    assert_eq!(lines.len(), 3);
}

#[test]
fn test_tool_result_collapsed_shows_truncated() {
    let mut conv = Conversation::new();
    let long_output = (0..30).map(|i| format!("line {i}")).collect::<Vec<_>>().join("\n");
    conv.messages.push(assistant(vec![
        tool("t1", "Bash", "{\"command\":\"cat big.txt\"}"),
        result("t1", &long_output, false, true),
    ]));
    let text = all_text(&render(&conv, 80));
    assert!(text.contains("line 0"));
    assert!(text.contains("line 19"));
    assert!(!text.contains("line 20"));
    assert!(text.contains("... 10 more lines"));
}

#[test]
fn test_tool_result_error_styling() {
    let mut conv = Conversation::new();
    conv.messages.push(assistant(vec![
        tool("t1", "Bash", "{\"command\":\"false\"}"),
        result("t1", "command failed", true, false),
    ]));
    let lines = render(&conv, 80);
    let text = all_text(&lines);
    assert!(text.contains("Bash"));
    assert!(text.contains("✗"));
    assert!(text.contains("✗ Error"));
    let header = lines.iter().find(|l| l.iter().any(|s| s.text.contains("Bash"))).unwrap();
    let name_span = header.iter().find(|s| s.text.contains("Bash")).unwrap();
    assert_eq!(name_span.tone, ChatTone::Failure);
    let content = lines.iter().find(|l| l.iter().any(|s| s.text.contains("command failed")));
    assert!(content.is_some());
    let error_span = content.unwrap().iter().find(|s| s.text.contains("command failed")).unwrap();
    assert_eq!(error_span.tone, ChatTone::ErrorText);
}

#[test]
fn test_tool_result_empty_content_hidden() {
    let mut conv = Conversation::new();
    conv.messages.push(assistant(vec![
        tool("t1", "Edit", "{\"file_path\":\"test.rs\"}"),
        result("t1", "", false, false),
    ]));
    let lines = render(&conv, 80);
    assert!(lines.len() <= 3, "got {}", lines.len());
}

#[test]
fn test_word_wrapping() {
    let long_text = "This is a very long sentence that should be word wrapped when the terminal width is narrow enough to force it onto multiple lines";
    let mut conv = Conversation::new();
    conv.messages.push(assistant(vec![ContentBlock::Text(long_text.to_string())]));
    let lines = render(&conv, 40);
    assert!(lines.len() > 3, "Expected wrapping, got {} lines", lines.len());
}

#[test]
fn test_separator_between_messages() {
    let mut conv = Conversation::new();
    conv.push_user_message("Hi".to_string());
    conv.messages.push(assistant(vec![ContentBlock::Text("Hello!".to_string())]));
    let lines = render(&conv, 80);
    assert!(all_text(&lines).contains("─"));
    let sep = lines.iter().find(|l| l.len() == 1 && l[0].tone == ChatTone::Separator).unwrap();
    assert_eq!(sep[0].text.chars().count(), 80);
    let wide = render(&conv, 200);
    let sep = wide.iter().find(|l| l.len() == 1 && l[0].tone == ChatTone::Separator).unwrap();
    assert_eq!(sep[0].text.chars().count(), 120);
}

#[test]
fn test_scroll_offset() {
    let mut conv = Conversation::new();
    for i in 0..30 {
        conv.push_user_message(format!("Message {}", i));
    }
    let lines = render(&conv, 80);
    // Each message: label and text; a separator between messages.
    assert_eq!(lines.len(), 30 * 2 + 29);
}

#[test]
fn test_zero_area() {
    let mut conv = Conversation::new();
    conv.push_user_message("Hello".to_string());
    let lines = render(&conv, 0);
    // Only the label: no columns are left for text.
    assert_eq!(lines.len(), 1);
}

#[test]
fn test_thinking_block_renders() {
    let mut conv = Conversation::new();
    conv.messages.push(assistant(vec![ContentBlock::Thinking(
        "Let me analyze this.\nFirst step.\nSecond step.".to_string(),
    )]));
    let text = all_text(&render(&conv, 80));
    assert!(text.contains("Thinking..."));
    assert!(text.contains("Let me analyze this."));
}

#[test]
fn test_thinking_block_empty_hidden() {
    let mut conv = Conversation::new();
    conv.messages.push(assistant(vec![ContentBlock::Thinking(String::new())]));
    assert!(!all_text(&render(&conv, 80)).contains("Thinking"));
}

#[test]
fn test_thinking_block_long_collapses() {
    let mut conv = Conversation::new();
    let long_thinking = (0..10).map(|i| format!("thought line {i}")).collect::<Vec<_>>().join("\n");
    conv.messages.push(assistant(vec![ContentBlock::Thinking(long_thinking)]));
    assert!(all_text(&render(&conv, 80)).contains("... 6 more lines"));
}

#[test]
fn test_edit_diff_preview() {
    let mut conv = Conversation::new();
    conv.messages.push(assistant(vec![tool(
        "t1",
        "Edit",
        r#"{"file_path":"src/main.rs","old_string":"let x = 1;","new_string":"let x = 42;"}"#,
    )]));
    let lines = render(&conv, 80);
    let text = all_text(&lines);
    assert!(text.contains("Edit"));
    assert!(text.contains("- let x = 1;"));
    assert!(text.contains("+ let x = 42;"));
    let removed = lines.iter().find(|l| l[0].text == "    - let x = 1;").unwrap();
    assert_eq!(removed[0].tone, ChatTone::Removed);
}

#[test]
fn test_write_content_preview() {
    let mut conv = Conversation::new();
    conv.messages.push(assistant(vec![tool(
        "t1",
        "Write",
        r#"{"file_path":"test.txt","content":"line one\nline two\nline three"}"#,
    )]));
    let text = all_text(&render(&conv, 80));
    assert!(text.contains("Write"));
    assert!(text.contains("line one"));
    assert!(text.contains("line three"));
}

#[test]
fn test_image_placeholder_renders() {
    let mut conv = Conversation::new();
    conv.messages.push(assistant(vec![ContentBlock::Image { media_type: "image/png".to_string() }]));
    assert!(all_text(&render(&conv, 80)).contains("[Image: image/png]"));
}

#[test]
fn test_document_placeholder_renders() {
    let mut conv = Conversation::new();
    conv.messages.push(assistant(vec![ContentBlock::Document {
        doc_type: "application/pdf".to_string(),
    }]));
    assert!(all_text(&render(&conv, 80)).contains("[Document: application/pdf]"));
}

fn texts(line: &[ChatSpan]) -> Vec<&str> {
    line.iter().map(|s| s.text.as_str()).collect()
}

#[test]
fn wrapping_breaks_at_spaces_and_forces_long_words() {
    let spans = vec![ChatSpan { text: "aaa bbb cccccccccc".to_string(), tone: ChatTone::UserText }];
    let lines = wrap_spans(&spans, "  ", 9);
    assert_eq!(lines.len(), 4);
    assert_eq!(texts(&lines[0]), vec!["  ", "aaa "]);
    assert_eq!(texts(&lines[1]), vec!["  ", "bbb "]);
    assert_eq!(texts(&lines[2]), vec!["  ", "ccccccc"]);
    assert_eq!(texts(&lines[3]), vec!["  ", "ccc"]);
    // Without room after the indent nothing is produced.
    assert!(wrap_spans(&spans, "  ", 2).is_empty());
}

#[test]
fn wrapping_keeps_spans_on_one_line_when_they_fit() {
    let spans = vec![
        ChatSpan { text: "ab".to_string(), tone: ChatTone::UserText },
        ChatSpan { text: "cd".to_string(), tone: ChatTone::Dim },
    ];
    let lines = wrap_spans(&spans, "> ", 10);
    assert_eq!(lines.len(), 1);
    assert_eq!(texts(&lines[0]), vec!["> ", "ab", "cd"]);
    assert_eq!(lines[0][2].tone, ChatTone::Dim);
}

#[test]
fn a_character_wider_than_the_pane_is_refused() {
    let mut conv = Conversation::new();
    conv.push_user_message("界".to_string());
    // Five columns leave one for text after padding and indent: the wide
    // character never fits.
    assert!(conversation_lines(&conv.messages, 5, LABEL).is_none());
    assert!(conversation_lines(&conv.messages, 6, LABEL).is_some());
    // Three columns leave no room at all: the text is not shown.
    assert_eq!(conversation_lines(&conv.messages, 3, LABEL).unwrap().len(), 1);
}

#[test]
fn long_tool_arguments_are_cut() {
    let long = "x".repeat(70);
    let mut conv = Conversation::new();
    conv.messages.push(assistant(vec![tool("t", "Bash", &format!("{{\"command\":\"{long}\"}}"))]));
    let lines = render(&conv, 80);
    assert_eq!(lines[1][1].text, format!(": {}...", "x".repeat(57)));
}

#[test]
fn result_lines_directly() {
    let lines = tool_result_lines("a\nb", false, false);
    assert_eq!(lines.len(), 2);
    assert_eq!(lines[1][0].text, "    b");
    assert_eq!(lines[1][0].tone, ChatTone::Dim);
    assert!(tool_result_lines("", true, true).is_empty());
}

#[test]
fn progress_line_frames() {
    let l = progress_line(0, true);
    assert_eq!(l[0].text, "  ⠋ Running...");
    let l = progress_line(5, false);
    assert_eq!(l[0].text, "  ⠹ Thinking...");
    assert_eq!(l[0].tone, ChatTone::Note);
}
