use sexy_claude::commands::CustomCommand;
use sexy_claude::completion::{
    all_completion_items, completion_for, local_command, resolve_custom_command, CompletionItem,
    CompletionState, LocalAction,
};

fn item(name: &str) -> CompletionItem {
    CompletionItem { name: name.to_string(), description: String::new(), score: 0 }
}

fn known() -> Vec<(String, String)> {
    vec![
        ("clear".to_string(), "Clear conversation history".to_string()),
        ("help".to_string(), "Show available commands".to_string()),
        ("compact".to_string(), "Compress conversation context".to_string()),
    ]
}

fn custom(name: &str, desc: &str, body: &str, args: bool) -> CustomCommand {
    CustomCommand {
        name: name.to_string(),
        description: desc.to_string(),
        body: body.to_string(),
        accepts_args: args,
    }
}

#[test]
fn completion_state_wraps() {
    let mut s = CompletionState::new(vec![item("a"), item("b"), item("c")]);
    assert_eq!(s.selected_command(), Some("a"));
    s.move_up();
    assert_eq!(s.selected, 2);
    s.move_down();
    assert_eq!(s.selected, 0);
    s.move_down();
    assert_eq!(s.selected_command(), Some("b"));
    let mut empty = CompletionState::new(vec![]);
    empty.move_up();
    empty.move_down();
    assert_eq!(empty.selected, 0);
    assert_eq!(empty.selected_command(), None);
}

#[test]
fn completion_items_merge_in_order() {
    let reported = vec!["help".to_string(), "review".to_string()];
    let customs = vec![custom("deploy", "Ship it", "", false), custom("clear", "mine", "", false)];
    let items = all_completion_items(&reported, &known(), &customs);
    let names: Vec<&str> = items.iter().map(|i| i.name.as_str()).collect();
    assert_eq!(names, vec!["help", "review", "clear", "compact", "deploy"]);
    assert_eq!(items[0].description, "Show available commands");
    assert_eq!(items[1].description, "");
    assert_eq!(items[4].description, "Ship it");
    assert!(items.iter().all(|i| i.score == 0));
}

#[test]
fn completion_only_for_slash_prefix() {
    let items = vec![item("clear"), item("compact")];
    assert!(completion_for("clear", items.clone(), 0).is_none());
    assert!(completion_for("/cl ear", items.clone(), 0).is_none());
    assert!(completion_for("/c\n", items.clone(), 0).is_none());
    assert!(completion_for("", items.clone(), 0).is_none());
    let all = completion_for("/", items.clone(), 5).unwrap();
    assert_eq!(all.matches.len(), 2);
    assert_eq!(all.selected, 0);
    assert!(completion_for("/", vec![], 0).is_none());
}

#[test]
fn completion_fuzzy_matches() {
    let items = vec![item("clear"), item("compact"), item("help")];
    let s = completion_for("/cl", items.clone(), 0).unwrap();
    assert_eq!(s.matches[0].name, "clear");
    assert!(s.matches.iter().all(|m| m.name != "help"));
    let s = completion_for("/hel", items.clone(), 7).unwrap();
    assert_eq!(s.matches.len(), 1);
    assert_eq!(s.selected, 0);
    assert!(s.matches[0].score > 0);
    assert!(completion_for("/zzz", items, 0).is_none());
}

#[test]
fn custom_command_resolution() {
    let cmds = vec![
        custom("search", "", "Search the codebase for $ARGUMENTS", true),
        custom("fixed", "", "Fixed prompt", false),
    ];
    assert_eq!(
        resolve_custom_command(&cmds, "/search  foo bar  "),
        Some("Search the codebase for foo bar".to_string())
    );
    assert_eq!(resolve_custom_command(&cmds, "/fixed ignored"), Some("Fixed prompt".to_string()));
    assert_eq!(resolve_custom_command(&cmds, "/search"), Some("Search the codebase for ".to_string()));
    assert_eq!(resolve_custom_command(&cmds, "/other x"), None);
    assert_eq!(resolve_custom_command(&cmds, "search x"), None);
}

#[test]
fn local_commands() {
    assert_eq!(local_command("  /clear "), Some(LocalAction::Clear));
    assert_eq!(local_command("/quit"), Some(LocalAction::Exit));
    assert_eq!(local_command("/exit"), Some(LocalAction::Exit));
    assert_eq!(local_command("/theme"), Some(LocalAction::ChangeTheme));
    assert_eq!(local_command("/plugins"), Some(LocalAction::ShowPlugins));
    assert_eq!(local_command("/clear now"), None);
    assert_eq!(local_command("clear"), None);
}
