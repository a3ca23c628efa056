use sexy_claude::conversation::{ContentBlock, Conversation, Role};
use sexy_claude::events::{ContentBlockType, Delta, StreamEvent};

#[test]
fn test_push_user_message() {
    let mut conv = Conversation::new();
    conv.push_user_message("Hello".to_string());

    assert_eq!(conv.messages.len(), 1);
    assert_eq!(conv.messages[0].role, Role::User);
    assert_eq!(conv.messages[0].content.len(), 1);
    match &conv.messages[0].content[0] {
        ContentBlock::Text(t) => assert_eq!(t, "Hello"),
        other => panic!("Expected Text, got {:?}", other),
    }
}

#[test]
fn test_message_start_creates_assistant_message() {
    let mut conv = Conversation::new();
    conv.apply_event(&StreamEvent::MessageStart {
        message_id: "msg_001".to_string(),
        model: "opus-4-6".to_string(),
        usage: None,
    });

    assert_eq!(conv.messages.len(), 1);
    assert_eq!(conv.messages[0].role, Role::Assistant);
    assert!(conv.messages[0].content.is_empty());
    assert!(conv.is_streaming());
}

#[test]
fn test_text_delta_accumulates() {
    let mut conv = Conversation::new();

    // Start a message
    conv.apply_event(&StreamEvent::MessageStart {
        message_id: "msg_001".to_string(),
        model: "opus-4-6".to_string(),
        usage: None,
    });

    // Start a text content block
    conv.apply_event(&StreamEvent::ContentBlockStart {
        index: 0,
        block_type: ContentBlockType::Text,
    });

    // Send two text deltas
    conv.apply_event(&StreamEvent::ContentBlockDelta {
        index: 0,
        delta: Delta::TextDelta("Hello, ".to_string()),
    });
    conv.apply_event(&StreamEvent::ContentBlockDelta {
        index: 0,
        delta: Delta::TextDelta("world!".to_string()),
    });

    // Verify the text is concatenated
    let msg = &conv.messages[0];
    assert_eq!(msg.content.len(), 1);
    match &msg.content[0] {
        ContentBlock::Text(t) => assert_eq!(t, "Hello, world!"),
        other => panic!("Expected Text, got {:?}", other),
    }

    // streaming_text should return the same
    assert_eq!(conv.streaming_text(), "Hello, world!");
}

#[test]
fn test_message_stop_ends_streaming() {
    let mut conv = Conversation::new();

    conv.apply_event(&StreamEvent::MessageStart {
        message_id: "msg_001".to_string(),
        model: "opus-4-6".to_string(),
        usage: None,
    });
    assert!(conv.is_streaming());

    conv.apply_event(&StreamEvent::MessageStop);
    assert!(!conv.is_streaming());
}

#[test]
fn test_tool_use_block() {
    let mut conv = Conversation::new();

    // Start message
    conv.apply_event(&StreamEvent::MessageStart {
        message_id: "msg_001".to_string(),
        model: "opus-4-6".to_string(),
        usage: None,
    });

    // Start a tool_use content block
    conv.apply_event(&StreamEvent::ContentBlockStart {
        index: 0,
        block_type: ContentBlockType::ToolUse {
            id: "toolu_abc".to_string(),
            name: "Bash".to_string(),
        },
    });

    // Send partial JSON input deltas
    conv.apply_event(&StreamEvent::ContentBlockDelta {
        index: 0,
        delta: Delta::InputJsonDelta(r#"{"comm"#.to_string()),
    });
    conv.apply_event(&StreamEvent::ContentBlockDelta {
        index: 0,
        delta: Delta::InputJsonDelta(r#"and":"ls"}"#.to_string()),
    });

    // Stop the block
    conv.apply_event(&StreamEvent::ContentBlockStop { index: 0 });

    // Verify the tool use block
    let msg = &conv.messages[0];
    assert_eq!(msg.content.len(), 1);
    match &msg.content[0] {
        ContentBlock::ToolUse { id, name, input } => {
            assert_eq!(id, "toolu_abc");
            assert_eq!(name, "Bash");
            assert_eq!(input, r#"{"command":"ls"}"#);
        }
        other => panic!("Expected ToolUse, got {:?}", other),
    }
}

#[test]
fn test_full_conversation_flow() {
    let mut conv = Conversation::new();

    // User sends a message
    conv.push_user_message("What is 2+2?".to_string());

    // Assistant responds
    conv.apply_event(&StreamEvent::MessageStart {
        message_id: "msg_001".to_string(),
        model: "opus-4-6".to_string(),
        usage: None,
    });
    conv.apply_event(&StreamEvent::ContentBlockStart {
        index: 0,
        block_type: ContentBlockType::Text,
    });
    conv.apply_event(&StreamEvent::ContentBlockDelta {
        index: 0,
        delta: Delta::TextDelta("2+2 = 4".to_string()),
    });
    conv.apply_event(&StreamEvent::ContentBlockStop { index: 0 });
    conv.apply_event(&StreamEvent::MessageDelta {
        stop_reason: Some("end_turn".to_string()),
        usage: None,
    });
    conv.apply_event(&StreamEvent::MessageStop);

    // Should have 2 messages total
    assert_eq!(conv.messages.len(), 2);
    assert_eq!(conv.messages[0].role, Role::User);
    assert_eq!(conv.messages[1].role, Role::Assistant);
    assert!(!conv.is_streaming());

    // Verify content
    match &conv.messages[1].content[0] {
        ContentBlock::Text(t) => assert_eq!(t, "2+2 = 4"),
        other => panic!("Expected Text, got {:?}", other),
    }
}

#[test]
fn test_result_after_streaming_does_not_duplicate() {
    let mut conv = Conversation::new();

    // User sends a message
    conv.push_user_message("Hello".to_string());

    // Full streaming response
    conv.apply_event(&StreamEvent::MessageStart {
        message_id: "msg_001".to_string(),
        model: "opus-4-6".to_string(),
        usage: None,
    });
    conv.apply_event(&StreamEvent::ContentBlockStart {
        index: 0,
        block_type: ContentBlockType::Text,
    });
    conv.apply_event(&StreamEvent::ContentBlockDelta {
        index: 0,
        delta: Delta::TextDelta("Hi there!".to_string()),
    });
    conv.apply_event(&StreamEvent::ContentBlockStop { index: 0 });
    conv.apply_event(&StreamEvent::MessageStop);

    // Result event with the same text (the CLI always sends this)
    conv.apply_event(&StreamEvent::Result {
        text: "Hi there!".to_string(),
        is_error: false,
    });

    // Should have exactly 2 messages: user + assistant (NOT 3)
    assert_eq!(conv.messages.len(), 2);
    assert_eq!(conv.messages[0].role, Role::User);
    assert_eq!(conv.messages[1].role, Role::Assistant);
}

#[test]
fn test_tool_result_appended_to_message() {
    let mut conv = Conversation::new();

    // Start message with a tool use
    conv.apply_event(&StreamEvent::MessageStart {
        message_id: "msg_001".to_string(),
        model: "opus-4-6".to_string(),
        usage: None,
    });
    conv.apply_event(&StreamEvent::ContentBlockStart {
        index: 0,
        block_type: ContentBlockType::ToolUse {
            id: "toolu_abc".to_string(),
            name: "Read".to_string(),
        },
    });
    conv.apply_event(&StreamEvent::ContentBlockDelta {
        index: 0,
        delta: Delta::InputJsonDelta(r#"{"file_path":"test.txt"}"#.to_string()),
    });
    conv.apply_event(&StreamEvent::ContentBlockStop { index: 0 });

    // Tool result arrives
    conv.apply_event(&StreamEvent::ToolResult {
        tool_use_id: "toolu_abc".to_string(),
        content: "hello world\n".to_string(),
        is_error: false,
    });

    let msg = &conv.messages[0];
    assert_eq!(msg.content.len(), 2);
    match &msg.content[1] {
        ContentBlock::ToolResult {
            tool_use_id,
            content,
            is_error,
            collapsed,
        } => {
            assert_eq!(tool_use_id, "toolu_abc");
            assert_eq!(content, "hello world\n");
            assert!(!is_error);
            assert!(!collapsed); // <20 lines, not collapsed
        }
        other => panic!("Expected ToolResult, got {:?}", other),
    }
}

#[test]
fn test_tool_result_long_output_auto_collapsed() {
    let mut conv = Conversation::new();

    conv.apply_event(&StreamEvent::MessageStart {
        message_id: "msg_001".to_string(),
        model: "opus-4-6".to_string(),
        usage: None,
    });
    conv.apply_event(&StreamEvent::ContentBlockStart {
        index: 0,
        block_type: ContentBlockType::ToolUse {
            id: "toolu_long".to_string(),
            name: "Bash".to_string(),
        },
    });
    conv.apply_event(&StreamEvent::ContentBlockStop { index: 0 });

    // 30-line output should auto-collapse
    let long_output = (0..30).map(|i| format!("line {i}")).collect::<Vec<_>>().join("\n");
    conv.apply_event(&StreamEvent::ToolResult {
        tool_use_id: "toolu_long".to_string(),
        content: long_output,
        is_error: false,
    });

    match &conv.messages[0].content[1] {
        ContentBlock::ToolResult { collapsed, .. } => assert!(collapsed),
        other => panic!("Expected ToolResult, got {:?}", other),
    }
}

#[test]
fn test_slash_command_result_creates_message() {
    let mut conv = Conversation::new();

    // Slash command result (no preceding streaming events)
    conv.apply_event(&StreamEvent::Result {
        text: "Available commands: /help, /clear".to_string(),
        is_error: false,
    });

    // Should create one assistant message
    assert_eq!(conv.messages.len(), 1);
    assert_eq!(conv.messages[0].role, Role::Assistant);
    match &conv.messages[0].content[0] {
        ContentBlock::Text(t) => assert_eq!(t, "Available commands: /help, /clear"),
        other => panic!("Expected Text, got {:?}", other),
    }
}

#[test]
fn test_thinking_block_accumulated() {
    let mut conv = Conversation::new();
    conv.apply_event(&StreamEvent::MessageStart {
        message_id: "msg_001".to_string(),
        model: "opus-4-6".to_string(),
        usage: None,
    });
    conv.apply_event(&StreamEvent::ContentBlockStart {
        index: 0,
        block_type: ContentBlockType::Thinking,
    });
    conv.apply_event(&StreamEvent::ContentBlockDelta {
        index: 0,
        delta: Delta::ThinkingDelta("Let me ".to_string()),
    });
    conv.apply_event(&StreamEvent::ContentBlockDelta {
        index: 0,
        delta: Delta::ThinkingDelta("think about this.".to_string()),
    });
    conv.apply_event(&StreamEvent::ContentBlockStop { index: 0 });

    let msg = &conv.messages[0];
    assert_eq!(msg.content.len(), 1);
    match &msg.content[0] {
        ContentBlock::Thinking(t) => assert_eq!(t, "Let me think about this."),
        other => panic!("Expected Thinking, got {:?}", other),
    }
}

#[test]
fn test_awaiting_tool_result_lifecycle() {
    let mut conv = Conversation::new();
    assert!(!conv.is_awaiting_tool_result());

    // Start message with a tool use
    conv.apply_event(&StreamEvent::MessageStart {
        message_id: "msg_001".to_string(),
        model: "opus-4-6".to_string(),
        usage: None,
    });
    conv.apply_event(&StreamEvent::ContentBlockStart {
        index: 0,
        block_type: ContentBlockType::ToolUse {
            id: "toolu_abc".to_string(),
            name: "Bash".to_string(),
        },
    });
    conv.apply_event(&StreamEvent::ContentBlockStop { index: 0 });

    // MessageStop with a ToolUse as last block → awaiting
    conv.apply_event(&StreamEvent::MessageStop);
    assert!(conv.is_awaiting_tool_result());

    // ToolResult clears awaiting state
    conv.apply_event(&StreamEvent::ToolResult {
        tool_use_id: "toolu_abc".to_string(),
        content: "output".to_string(),
        is_error: false,
    });
    assert!(!conv.is_awaiting_tool_result());
}

#[test]
fn test_message_stop_without_tool_use_not_awaiting() {
    let mut conv = Conversation::new();

    // Start message with text only
    conv.apply_event(&StreamEvent::MessageStart {
        message_id: "msg_001".to_string(),
        model: "opus-4-6".to_string(),
        usage: None,
    });
    conv.apply_event(&StreamEvent::ContentBlockStart {
        index: 0,
        block_type: ContentBlockType::Text,
    });
    conv.apply_event(&StreamEvent::ContentBlockDelta {
        index: 0,
        delta: Delta::TextDelta("Hello".to_string()),
    });
    conv.apply_event(&StreamEvent::ContentBlockStop { index: 0 });
    conv.apply_event(&StreamEvent::MessageStop);

    // Text-only message → not awaiting tool result
    assert!(!conv.is_awaiting_tool_result());
}

#[test]
fn test_image_block_added_to_message() {
    let mut conv = Conversation::new();
    conv.apply_event(&StreamEvent::MessageStart {
        message_id: "msg_001".to_string(),
        model: "opus-4-6".to_string(),
        usage: None,
    });
    conv.apply_event(&StreamEvent::ContentBlockStart {
        index: 0,
        block_type: ContentBlockType::Image {
            media_type: "image/png".to_string(),
        },
    });
    conv.apply_event(&StreamEvent::ContentBlockStop { index: 0 });

    let msg = &conv.messages[0];
    assert_eq!(msg.content.len(), 1);
    match &msg.content[0] {
        ContentBlock::Image { media_type } => assert_eq!(media_type, "image/png"),
        other => panic!("Expected Image, got {:?}", other),
    }
}

#[test]
fn test_document_block_added_to_message() {
    let mut conv = Conversation::new();
    conv.apply_event(&StreamEvent::MessageStart {
        message_id: "msg_001".to_string(),
        model: "opus-4-6".to_string(),
        usage: None,
    });
    conv.apply_event(&StreamEvent::ContentBlockStart {
        index: 0,
        block_type: ContentBlockType::Document {
            doc_type: "application/pdf".to_string(),
        },
    });
    conv.apply_event(&StreamEvent::ContentBlockStop { index: 0 });

    let msg = &conv.messages[0];
    assert_eq!(msg.content.len(), 1);
    match &msg.content[0] {
        ContentBlock::Document { doc_type } => assert_eq!(doc_type, "application/pdf"),
        other => panic!("Expected Document, got {:?}", other),
    }
}
