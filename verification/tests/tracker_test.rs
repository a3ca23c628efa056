use sexy_claude::conversation::{ContentBlock, Message, Role};
use sexy_claude::events::{StreamEvent, Usage};
use sexy_claude::tracker::{PendingQuestions, SessionTracker};

fn tool_msg(id: &str, name: &str, input: &str) -> Vec<Message> {
    vec![Message {
        role: Role::Assistant,
        content: vec![ContentBlock::ToolUse {
            id: id.to_string(),
            name: name.to_string(),
            input: input.to_string(),
        }],
    }]
}

#[test]
fn tracker_records_init_and_tokens() {
    let mut t = SessionTracker::new();
    let none: Vec<Message> = vec![];
    t.observe(
        &StreamEvent::SystemInit {
            slash_commands: vec!["commit".to_string(), "review".to_string()],
            session_id: Some("abc-123".to_string()),
        },
        &none,
    );
    assert_eq!(t.slash_commands, vec!["commit".to_string(), "review".to_string()]);
    assert_eq!(t.session_id.as_deref(), Some("abc-123"));
    t.observe(
        &StreamEvent::MessageStart {
            message_id: "m".to_string(),
            model: "opus-4-6".to_string(),
            usage: Some(Usage { input_tokens: 100, output_tokens: 5 }),
        },
        &none,
    );
    t.observe(
        &StreamEvent::MessageDelta { stop_reason: None, usage: Some(Usage { input_tokens: 7, output_tokens: 42 }) },
        &none,
    );
    assert_eq!(t.total_input_tokens, 100);
    assert_eq!(t.total_output_tokens, 47);
    assert_eq!(t.detected_model.as_deref(), Some("opus-4-6"));
    t.observe(
        &StreamEvent::MessageStart { message_id: "m2".to_string(), model: String::new(), usage: None },
        &none,
    );
    assert_eq!(t.detected_model.as_deref(), Some("opus-4-6"));
}

#[test]
fn tracker_toasts() {
    let mut t = SessionTracker::new();
    let none: Vec<Message> = vec![];
    t.pending_slash_command = Some("/compact".to_string());
    let fx = t.observe(&StreamEvent::Result { text: String::new(), is_error: false }, &none);
    assert_eq!(fx.toast.as_deref(), Some("Ran /compact"));
    assert!(t.pending_slash_command.is_none());
    let fx = t.observe(&StreamEvent::Result { text: String::new(), is_error: false }, &none);
    assert!(fx.toast.is_none());
    let fx = t.observe(
        &StreamEvent::SystemHook { subtype: "hook_started".to_string(), hook_id: Some("fmt".to_string()) },
        &none,
    );
    assert_eq!(fx.toast.as_deref(), Some("Running hook: fmt"));
    let fx = t.observe(
        &StreamEvent::SystemHook { subtype: "hook_completed".to_string(), hook_id: None },
        &none,
    );
    assert_eq!(fx.toast.as_deref(), Some("Hook completed: hook"));
    let fx = t.observe(
        &StreamEvent::SystemHook { subtype: "other".to_string(), hook_id: None },
        &none,
    );
    assert!(fx.toast.is_none());
}

#[test]
fn tracker_tool_calls() {
    let mut t = SessionTracker::new();
    let todo = tool_msg("t1", "TodoWrite", r#"{"todos":[{"id":"1","content":"A","status":"in_progress"}]}"#);
    t.observe(&StreamEvent::ContentBlockStop { index: 0 }, &todo);
    assert_eq!(t.todo_tracker.current_task(), Some("A"));

    let task = tool_msg("t2", "Task", r#"{"description":"explore","subagent_type":"Explore"}"#);
    t.observe(&StreamEvent::ContentBlockStop { index: 0 }, &task);
    assert_eq!(t.agent_tasks.len(), 1);
    assert_eq!(t.agent_tasks[0].description, "explore");
    assert_eq!(t.agent_tasks[0].agent_type, "Explore");
    assert!(!t.agent_tasks[0].completed);
    let task2 = tool_msg("t3", "Task", r#"{}"#);
    t.observe(&StreamEvent::ContentBlockStop { index: 0 }, &task2);
    assert_eq!(t.agent_tasks[1].description, "agent task");
    assert_eq!(t.agent_tasks[1].agent_type, "unknown");
    t.observe(&StreamEvent::ContentBlockStop { index: 3 }, &task2);
    assert_eq!(t.agent_tasks.len(), 2);

    let none: Vec<Message> = vec![];
    t.observe(
        &StreamEvent::ToolResult { tool_use_id: "t2".to_string(), content: String::new(), is_error: false },
        &none,
    );
    assert!(t.agent_tasks[0].completed);
    assert!(!t.agent_tasks[1].completed);
}

#[test]
fn tracker_questions() {
    let mut t = SessionTracker::new();
    let ask = tool_msg(
        "q1",
        "AskUserQuestion",
        r#"{"questions":[{"question":"Pick?","options":[{"label":"X"}]}]}"#,
    );
    let fx = t.observe(&StreamEvent::ContentBlockStop { index: 0 }, &ask);
    assert!(fx.questions.is_none());
    let none: Vec<Message> = vec![];
    let fx = t.observe(
        &StreamEvent::ToolResult { tool_use_id: "q1".to_string(), content: String::new(), is_error: true },
        &none,
    );
    let qs = fx.questions.unwrap();
    assert_eq!(qs[0].question, "Pick?");
    let fx = t.observe(
        &StreamEvent::ToolResult { tool_use_id: "q1".to_string(), content: String::new(), is_error: true },
        &none,
    );
    assert!(fx.questions.is_none());
}

#[test]
fn pending_questions_map() {
    let mut p = PendingQuestions::new();
    p.insert("a".to_string(), "1".to_string());
    p.insert("b".to_string(), "2".to_string());
    p.insert("a".to_string(), "3".to_string());
    assert_eq!(p.remove("a"), Some("3".to_string()));
    assert_eq!(p.remove("a"), None);
    assert_eq!(p.remove("b"), Some("2".to_string()));
    assert_eq!(p.remove("c"), None);
}
