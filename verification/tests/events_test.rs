use sexy_claude::events::{parse_event, ContentBlockType, Delta, StreamEvent};
// --- CLI envelope format (stream_event wrapper) ---

#[test]
fn test_parse_stream_event_message_start() {
    let line = r#"{"type":"stream_event","event":{"type":"message_start","message":{"id":"msg_123","type":"message","role":"assistant","content":[],"model":"opus-4-6","stop_reason":null,"usage":{"input_tokens":10,"output_tokens":1}}},"session_id":"abc","uuid":"def"}"#;
    let event = parse_event(line);
    match event {
        StreamEvent::MessageStart { message_id, model, .. } => {
            assert_eq!(message_id, "msg_123");
            assert_eq!(model, "opus-4-6");
        }
        other => panic!("Expected MessageStart, got {:?}", other),
    }
}

#[test]
fn test_parse_stream_event_content_block_delta() {
    let line = r#"{"type":"stream_event","event":{"type":"content_block_delta","index":0,"delta":{"type":"text_delta","text":"Hello"}},"session_id":"abc","uuid":"def"}"#;
    let event = parse_event(line);
    match event {
        StreamEvent::ContentBlockDelta { index, delta } => {
            assert_eq!(index, 0);
            match delta {
                Delta::TextDelta(text) => assert_eq!(text, "Hello"),
                other => panic!("Expected TextDelta, got {:?}", other),
            }
        }
        other => panic!("Expected ContentBlockDelta, got {:?}", other),
    }
}

#[test]
fn test_parse_stream_event_message_stop() {
    let line = r#"{"type":"stream_event","event":{"type":"message_stop"},"session_id":"abc","uuid":"def"}"#;
    let event = parse_event(line);
    assert!(matches!(event, StreamEvent::MessageStop));
}

#[test]
fn test_parse_stream_event_content_block_start_text() {
    let line = r#"{"type":"stream_event","event":{"type":"content_block_start","index":0,"content_block":{"type":"text","text":""}},"session_id":"abc","uuid":"def"}"#;
    let event = parse_event(line);
    match event {
        StreamEvent::ContentBlockStart { index, block_type } => {
            assert_eq!(index, 0);
            assert!(matches!(block_type, ContentBlockType::Text));
        }
        other => panic!("Expected ContentBlockStart, got {:?}", other),
    }
}

#[test]
fn test_parse_stream_event_content_block_stop() {
    let line = r#"{"type":"stream_event","event":{"type":"content_block_stop","index":0},"session_id":"abc","uuid":"def"}"#;
    let event = parse_event(line);
    match event {
        StreamEvent::ContentBlockStop { index } => assert_eq!(index, 0),
        other => panic!("Expected ContentBlockStop, got {:?}", other),
    }
}

#[test]
fn test_parse_stream_event_message_delta() {
    let line = r#"{"type":"stream_event","event":{"type":"message_delta","delta":{"stop_reason":"end_turn","stop_sequence":null},"usage":{"output_tokens":42}},"session_id":"abc","uuid":"def"}"#;
    let event = parse_event(line);
    match event {
        StreamEvent::MessageDelta { stop_reason, .. } => {
            assert_eq!(stop_reason, Some("end_turn".to_string()));
        }
        other => panic!("Expected MessageDelta, got {:?}", other),
    }
}

// --- System/result/assistant events are treated as Unknown ---

#[test]
fn test_parse_system_init_extracts_slash_commands() {
    let line = r#"{"type":"system","subtype":"init","cwd":"/tmp","session_id":"abc-123","slash_commands":["commit","review","brainstorm"]}"#;
    let event = parse_event(line);
    match event {
        StreamEvent::SystemInit {
            slash_commands,
            session_id,
        } => {
            assert_eq!(slash_commands, vec!["commit", "review", "brainstorm"]);
            assert_eq!(session_id, Some("abc-123".to_string()));
        }
        other => panic!("Expected SystemInit, got {:?}", other),
    }
}

#[test]
fn test_parse_system_hook_event() {
    let line = r#"{"type":"system","subtype":"hook_started","hook_id":"abc","session_id":"def"}"#;
    let event = parse_event(line);
    match event {
        StreamEvent::SystemHook { subtype, hook_id } => {
            assert_eq!(subtype, "hook_started");
            assert_eq!(hook_id, Some("abc".to_string()));
        }
        other => panic!("Expected SystemHook, got {:?}", other),
    }
}

#[test]
fn test_parse_result_event() {
    let line = r#"{"type":"result","subtype":"success","result":"Hello","session_id":"abc"}"#;
    let event = parse_event(line);
    match event {
        StreamEvent::Result { text, is_error } => {
            assert_eq!(text, "Hello");
            assert!(!is_error);
        }
        other => panic!("Expected Result, got {:?}", other),
    }
}

#[test]
fn test_parse_result_event_error() {
    let line = r#"{"type":"result","subtype":"error","result":"Something failed","is_error":true,"session_id":"abc"}"#;
    let event = parse_event(line);
    match event {
        StreamEvent::Result { text, is_error } => {
            assert_eq!(text, "Something failed");
            assert!(is_error);
        }
        other => panic!("Expected Result, got {:?}", other),
    }
}

#[test]
fn test_parse_assistant_event_is_unknown() {
    let line = r#"{"type":"assistant","message":{"id":"msg_1","model":"opus-4-6","type":"message","role":"assistant","content":[{"type":"text","text":"Hi"}]},"session_id":"abc"}"#;
    let event = parse_event(line);
    assert!(matches!(event, StreamEvent::Unknown(_)));
}

// --- Backwards-compat: raw Anthropic format still works ---

#[test]
fn test_parse_raw_message_start() {
    let line = r#"{"type":"message_start","message":{"id":"msg_123","type":"message","role":"assistant","content":[],"model":"opus-4-6","stop_reason":null,"usage":{"input_tokens":10,"output_tokens":1}}}"#;
    let event = parse_event(line);
    match event {
        StreamEvent::MessageStart { message_id, model, .. } => {
            assert_eq!(message_id, "msg_123");
            assert_eq!(model, "opus-4-6");
        }
        other => panic!("Expected MessageStart, got {:?}", other),
    }
}

#[test]
fn test_parse_raw_content_block_delta_text() {
    let line = r#"{"type":"content_block_delta","index":0,"delta":{"type":"text_delta","text":"Hello world"}}"#;
    let event = parse_event(line);
    match event {
        StreamEvent::ContentBlockDelta { index, delta } => {
            assert_eq!(index, 0);
            match delta {
                Delta::TextDelta(text) => assert_eq!(text, "Hello world"),
                other => panic!("Expected TextDelta, got {:?}", other),
            }
        }
        other => panic!("Expected ContentBlockDelta, got {:?}", other),
    }
}

// --- Tool result events ---

#[test]
fn test_parse_tool_result_with_file_metadata() {
    let line = r#"{"type":"user","message":{"role":"user","content":[{"tool_use_id":"toolu_abc","type":"tool_result","content":"     1\u2192hello world\n     2\u2192"}]},"tool_use_result":{"type":"text","file":{"filePath":"/tmp/test.txt","content":"hello world\n","numLines":2,"startLine":1,"totalLines":2}},"session_id":"abc"}"#;
    let event = parse_event(line);
    match event {
        StreamEvent::ToolResult {
            tool_use_id,
            content,
            is_error,
        } => {
            assert_eq!(tool_use_id, "toolu_abc");
            // Should use clean content from metadata
            assert_eq!(content, "hello world\n");
            assert!(!is_error);
        }
        other => panic!("Expected ToolResult, got {:?}", other),
    }
}

#[test]
fn test_parse_tool_result_without_metadata() {
    let line = r#"{"type":"user","message":{"role":"user","content":[{"tool_use_id":"toolu_def","type":"tool_result","content":"command output here"}]},"session_id":"abc"}"#;
    let event = parse_event(line);
    match event {
        StreamEvent::ToolResult {
            tool_use_id,
            content,
            is_error,
        } => {
            assert_eq!(tool_use_id, "toolu_def");
            assert_eq!(content, "command output here");
            assert!(!is_error);
        }
        other => panic!("Expected ToolResult, got {:?}", other),
    }
}

#[test]
fn test_parse_tool_result_error() {
    let line = r#"{"type":"user","message":{"role":"user","content":[{"tool_use_id":"toolu_err","type":"tool_result","content":"Error: file not found","is_error":true}]},"session_id":"abc"}"#;
    let event = parse_event(line);
    match event {
        StreamEvent::ToolResult {
            tool_use_id,
            content,
            is_error,
        } => {
            assert_eq!(tool_use_id, "toolu_err");
            assert_eq!(content, "Error: file not found");
            assert!(is_error);
        }
        other => panic!("Expected ToolResult, got {:?}", other),
    }
}

#[test]
fn test_parse_user_event_without_tool_result_is_unknown() {
    let line = r#"{"type":"user","message":{"role":"user","content":[{"type":"text","text":"hi"}]},"session_id":"abc"}"#;
    let event = parse_event(line);
    assert!(matches!(event, StreamEvent::Unknown(_)));
}

// --- Thinking blocks ---

#[test]
fn test_parse_thinking_content_block_start() {
    let line = r#"{"type":"stream_event","event":{"type":"content_block_start","index":0,"content_block":{"type":"thinking","thinking":""}},"session_id":"abc"}"#;
    let event = parse_event(line);
    match event {
        StreamEvent::ContentBlockStart { index, block_type } => {
            assert_eq!(index, 0);
            assert!(matches!(block_type, ContentBlockType::Thinking));
        }
        other => panic!("Expected ContentBlockStart(Thinking), got {:?}", other),
    }
}

#[test]
fn test_parse_thinking_delta() {
    let line = r#"{"type":"stream_event","event":{"type":"content_block_delta","index":0,"delta":{"type":"thinking_delta","thinking":"Let me think..."}},"session_id":"abc"}"#;
    let event = parse_event(line);
    match event {
        StreamEvent::ContentBlockDelta { index, delta } => {
            assert_eq!(index, 0);
            match delta {
                Delta::ThinkingDelta(text) => assert_eq!(text, "Let me think..."),
                other => panic!("Expected ThinkingDelta, got {:?}", other),
            }
        }
        other => panic!("Expected ContentBlockDelta, got {:?}", other),
    }
}

// --- Usage extraction ---

#[test]
fn test_message_start_extracts_usage() {
    let line = r#"{"type":"stream_event","event":{"type":"message_start","message":{"id":"msg_123","type":"message","role":"assistant","content":[],"model":"opus-4-6","stop_reason":null,"usage":{"input_tokens":100,"output_tokens":5}}},"session_id":"abc"}"#;
    let event = parse_event(line);
    match event {
        StreamEvent::MessageStart { usage, .. } => {
            let u = usage.expect("Expected usage data");
            assert_eq!(u.input_tokens, 100);
            assert_eq!(u.output_tokens, 5);
        }
        other => panic!("Expected MessageStart, got {:?}", other),
    }
}

#[test]
fn test_message_delta_extracts_usage() {
    let line = r#"{"type":"stream_event","event":{"type":"message_delta","delta":{"stop_reason":"end_turn","stop_sequence":null},"usage":{"output_tokens":42}},"session_id":"abc"}"#;
    let event = parse_event(line);
    match event {
        StreamEvent::MessageDelta { usage, .. } => {
            let u = usage.expect("Expected usage data");
            assert_eq!(u.output_tokens, 42);
        }
        other => panic!("Expected MessageDelta, got {:?}", other),
    }
}

// --- Edge cases ---

#[test]
fn test_parse_invalid_json() {
    let line = "this is not json at all";
    let event = parse_event(line);
    assert!(matches!(event, StreamEvent::Unknown(_)));
}

#[test]
fn test_parse_unknown_event_type() {
    let line = r#"{"type":"ping"}"#;
    let event = parse_event(line);
    assert!(matches!(event, StreamEvent::Unknown(_)));
}
