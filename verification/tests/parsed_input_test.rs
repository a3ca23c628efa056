use sexy_claude::activity::{diff_section_of_value, pane_of_value, SplitContent};
use sexy_claude::chat::{edit_preview_of_value, write_preview_of_value, ChatTone};
use sexy_claude::history::entry_of_value;
use sexy_claude::json::JsonValue;
use sexy_claude::pane::primary_arg_of_value;
use sexy_claude::questions::questions_of_value;
use sexy_claude::sessions::user_text;
use sexy_claude::todo::{todo_list_of_value, TodoStatus};
use sexy_claude::tracker::task_of_value;
use sexy_claude::viewers::{description_of_value, listed_in_value, path_of_value};

fn s(t: &str) -> JsonValue {
    JsonValue::Str(t.to_string())
}

fn obj(members: Vec<(&str, JsonValue)>) -> JsonValue {
    JsonValue::Object(members.into_iter().map(|(k, v)| (k.to_string(), v)).collect())
}

#[test]
fn todo_list_from_a_parsed_input() {
    let v = obj(vec![(
        "todos",
        JsonValue::Array(vec![obj(vec![("id", s("1")), ("content", s("Write tests")), ("status", s("completed"))])]),
    )]);
    let items = todo_list_of_value(Some(&v)).unwrap();
    assert_eq!(items.len(), 1);
    assert_eq!(items[0].id, "1");
    assert_eq!(items[0].content, "Write tests");
    assert_eq!(items[0].status, TodoStatus::Completed);
    assert!(todo_list_of_value(None).is_none());
    assert!(todo_list_of_value(Some(&obj(vec![("todos", s("x"))]))).is_none());
}

#[test]
fn questions_from_a_parsed_input() {
    let q = obj(vec![
        ("question", s("Which?")),
        ("header", s("Pick")),
        ("options", JsonValue::Array(vec![obj(vec![("label", s("A")), ("description", s("first"))])])),
        ("multiSelect", JsonValue::Bool(true)),
    ]);
    let v = obj(vec![("questions", JsonValue::Array(vec![q]))]);
    let qs = questions_of_value(Some(&v)).unwrap();
    assert_eq!(qs.len(), 1);
    assert_eq!(qs[0].question, "Which?");
    assert_eq!(qs[0].header, "Pick");
    assert_eq!(qs[0].options[0].label, "A");
    assert_eq!(qs[0].options[0].description, "first");
    assert!(qs[0].multi_select);
    assert!(questions_of_value(None).is_none());
}

#[test]
fn diff_sections_from_parsed_inputs() {
    let w = obj(vec![("file_path", s("a.rs")), ("content", s("x\ny\n"))]);
    assert_eq!(diff_section_of_value(false, Some(&w)), "+++ a.rs (new file, 2 lines)\n\n");
    let e = obj(vec![("file_path", s("b.rs")), ("old_string", s("")), ("new_string", s(""))]);
    assert_eq!(diff_section_of_value(true, Some(&e)), "");
    assert_eq!(diff_section_of_value(true, None), "");
    let e2 = obj(vec![("old_string", s("a")), ("new_string", s("b"))]);
    let d = diff_section_of_value(true, Some(&e2));
    assert_eq!(d, "--- unknown\n+++ unknown\n- a\n+ b\n\n");
}

#[test]
fn pane_from_a_parsed_input() {
    let v = obj(vec![("file_path", s("f.txt"))]);
    match pane_of_value("Read", Some(&v)) {
        Some(SplitContent::FilePreview(p, lines)) => {
            assert_eq!(p, "f.txt");
            assert_eq!(lines, vec!["Reading file...".to_string()]);
        },
        other => panic!("unexpected {:?}", other),
    }
    assert!(pane_of_value("Bash", Some(&v)).is_none());
    assert!(pane_of_value("Read", None).is_none());
}

#[test]
fn previews_from_parsed_inputs() {
    let w = obj(vec![("content", s("one\ntwo"))]);
    let lines = write_preview_of_value(Some(&w));
    assert_eq!(lines.len(), 2);
    assert_eq!(lines[0].last().unwrap().text, "    one");
    assert_eq!(lines[0].last().unwrap().tone, ChatTone::Dim);
    assert!(write_preview_of_value(None).is_empty());
    let e = obj(vec![("old_string", s("a")), ("new_string", s("b"))]);
    let d = edit_preview_of_value(Some(&e));
    assert_eq!(d.len(), 2);
    assert!(edit_preview_of_value(Some(&obj(vec![]))).is_empty());
}

#[test]
fn primary_arg_from_a_parsed_input() {
    let v = obj(vec![("command", s("ls -la"))]);
    assert_eq!(primary_arg_of_value("Bash", Some(&v)), Some("ls -la".to_string()));
    assert_eq!(primary_arg_of_value("Read", Some(&v)), None);
    assert_eq!(primary_arg_of_value("Other", Some(&v)), Some("ls -la".to_string()));
    assert_eq!(primary_arg_of_value("Bash", Some(&s("x"))), None);
    assert_eq!(primary_arg_of_value("Bash", None), None);
}

#[test]
fn user_text_from_a_parsed_line() {
    let v = obj(vec![("type", s("user")), ("message", obj(vec![("content", s("hello"))]))]);
    assert_eq!(user_text(&v), Some("hello".to_string()));
    let a = obj(vec![("type", s("assistant")), ("message", obj(vec![("content", s("hi"))]))]);
    assert_eq!(user_text(&a), None);
}

#[test]
fn history_entry_from_a_parsed_line() {
    assert_eq!(entry_of_value(Some(s("git status"))), Some("git status".to_string()));
    assert_eq!(entry_of_value(Some(s(""))), None);
    assert_eq!(entry_of_value(Some(JsonValue::Null)), None);
    assert_eq!(entry_of_value(None), None);
}

#[test]
fn task_from_a_parsed_input() {
    let v = obj(vec![("description", s("Explore")), ("subagent_type", s("general"))]);
    assert_eq!(task_of_value(Some(&v)), Some(("Explore".to_string(), "general".to_string())));
    assert_eq!(task_of_value(Some(&obj(vec![]))), Some(("agent task".to_string(), "unknown".to_string())));
    assert_eq!(task_of_value(None), None);
}

#[test]
fn plugin_documents_from_parsed_values() {
    let installed = obj(vec![("plugins", obj(vec![("p@m", JsonValue::Array(vec![]))]))]);
    assert!(listed_in_value(Some(&installed), "plugins", "p@m", false));
    assert!(!listed_in_value(Some(&installed), "plugins", "p@m", true));
    assert!(!listed_in_value(Some(&installed), "plugins", "q@m", false));
    let settings = obj(vec![("enabledPlugins", obj(vec![("p@m", JsonValue::Bool(true))]))]);
    assert!(listed_in_value(Some(&settings), "enabledPlugins", "p@m", true));
    assert!(!listed_in_value(None, "plugins", "p@m", false));
    assert_eq!(description_of_value(Some(&obj(vec![("description", s("Does things"))]))), "Does things");
    assert_eq!(description_of_value(None), "");
    assert_eq!(path_of_value(Some(&obj(vec![("path", s("src"))]))), "src");
    assert_eq!(path_of_value(Some(&obj(vec![("file_path", s("a")), ("path", s("b"))]))), "a");
    assert_eq!(path_of_value(None), "");
}
