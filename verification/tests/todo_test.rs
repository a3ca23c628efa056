use sexy_claude::todo::{TodoStatus, TodoTracker};

#[test]
fn test_apply_todo_write() {
    let mut tracker = TodoTracker::new();
    let json = r#"{
        "todos": [
            {"id": "1", "content": "Read files", "status": "completed"},
            {"id": "2", "content": "Implement feature", "status": "in_progress"},
            {"id": "3", "content": "Write tests", "status": "pending"}
        ]
    }"#;
    tracker.apply_todo_write(json);
    assert_eq!(tracker.items.len(), 3);
    assert_eq!(tracker.completed_count(), 1);
    assert_eq!(tracker.active_count(), 2);
}

#[test]
fn test_summary() {
    let mut tracker = TodoTracker::new();
    assert_eq!(tracker.summary(), None);

    let json = r#"{"todos": [
        {"id": "1", "content": "Task A", "status": "completed"},
        {"id": "2", "content": "Task B", "status": "pending"}
    ]}"#;
    tracker.apply_todo_write(json);
    assert_eq!(tracker.summary(), Some("1/2 tasks".to_string()));
}

#[test]
fn test_current_task() {
    let mut tracker = TodoTracker::new();
    let json = r#"{"todos": [
        {"id": "1", "content": "Read files", "status": "completed"},
        {"id": "2", "content": "Implement feature", "status": "in_progress"}
    ]}"#;
    tracker.apply_todo_write(json);
    assert_eq!(tracker.current_task(), Some("Implement feature"));
}

#[test]
fn test_replaces_previous_list() {
    let mut tracker = TodoTracker::new();
    tracker.apply_todo_write(r#"{"todos": [{"id": "1", "content": "Old", "status": "pending"}]}"#);
    assert_eq!(tracker.items.len(), 1);

    tracker.apply_todo_write(r#"{"todos": [{"id": "2", "content": "New A", "status": "pending"}, {"id": "3", "content": "New B", "status": "pending"}]}"#);
    assert_eq!(tracker.items.len(), 2);
    assert_eq!(tracker.items[0].content, "New A");
}

#[test]
fn test_invalid_json_no_crash() {
    let mut tracker = TodoTracker::new();
    tracker.apply_todo_write("not json");
    assert!(tracker.items.is_empty());
}

#[test]
fn todo_missing_fields_and_unknown_status() {
    let mut tracker = TodoTracker::new();
    tracker.apply_todo_write(r#"{"todos": [{"status": "blocked"}, {"id": null, "content": "x"}]}"#);
    assert_eq!(tracker.items.len(), 2);
    assert_eq!(tracker.items[0].id, "");
    assert_eq!(tracker.items[0].content, "");
    assert_eq!(tracker.items[0].status, TodoStatus::Pending);
    assert_eq!(tracker.items[1].content, "x");
    assert_eq!(tracker.current_task(), None);
    assert_eq!(tracker.summary(), Some("0/2 tasks".to_string()));
}

#[test]
fn todo_malformed_write_keeps_list() {
    let mut tracker = TodoTracker::new();
    tracker.apply_todo_write(r#"{"todos": [{"id": "1", "content": "Keep", "status": "completed"}]}"#);
    tracker.apply_todo_write(r#"{"todos": [{"id": 7}]}"#);
    tracker.apply_todo_write(r#"{"other": []}"#);
    tracker.apply_todo_write(r#"{"todos": null}"#);
    assert_eq!(tracker.items.len(), 1);
    assert_eq!(tracker.items[0].content, "Keep");
    assert_eq!(tracker.summary(), Some("1/1 tasks".to_string()));
}

#[test]
fn todo_entries_as_arrays() {
    let mut tracker = TodoTracker::new();
    tracker.apply_todo_write(r#"{"todos": [["a", "Do it", "in_progress"]]}"#);
    assert_eq!(tracker.items.len(), 1);
    assert_eq!(tracker.items[0].id, "a");
    assert_eq!(tracker.current_task(), Some("Do it"));
    tracker.apply_todo_write(r#"{"todos": [["a", "short"]]}"#);
    assert_eq!(tracker.current_task(), Some("Do it"));
}

#[test]
fn todo_counts_cover_list() {
    let mut tracker = TodoTracker::default();
    tracker.apply_todo_write(r#"{"todos": [
        {"status": "completed"}, {"status": "completed"}, {"status": "pending"},
        {"status": "in_progress"}, {}
    ]}"#);
    assert_eq!(tracker.active_count() + tracker.completed_count(), tracker.items.len());
    assert_eq!(tracker.completed_count(), 2);
    assert_eq!(tracker.active_count(), 3);
}
