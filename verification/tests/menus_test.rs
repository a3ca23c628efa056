use sexy_claude::conversation::{ContentBlock, Message, Role};
use sexy_claude::menus::{
    action_menu_items, checkpoint_items, menu_choice, picker_index, rewind_request, running_agents,
    workflow_items, MenuChoice,
};
use sexy_claude::overlay::OverlayItem;

fn values(items: &[OverlayItem]) -> Vec<String> {
    items.iter().map(|i| i.value.clone()).collect()
}

#[test]
fn action_menu_without_optional_commands() {
    let items = action_menu_items(&vec![], false, 0, 0);
    assert_eq!(
        values(&items),
        vec!["continue", "resume", "workflows", "split", "agents", "theme", "quit"]
    );
    assert_eq!(items[3].label, "Split Pane");
    assert_eq!(items[3].hint, "Ctrl+S");
    assert_eq!(items[4].label, "Agent Dashboard");
    assert_eq!(items[0].hint, "");
}

#[test]
fn action_menu_with_reported_commands_and_agents() {
    let reported = vec!["rewind".to_string(), "rename".to_string(), "compact".to_string()];
    let items = action_menu_items(&reported, true, 1, 3);
    assert_eq!(
        values(&items),
        vec![
            "continue", "resume", "rename", "compact", "rewind", "workflows", "split", "agents",
            "theme", "quit"
        ]
    );
    assert_eq!(items[2].label, "Rename Session");
    assert_eq!(items[6].label, "Close Split Pane");
    assert_eq!(items[7].label, "Agent Dashboard (1 active / 3 total)");
}

#[test]
fn menu_values_name_choices() {
    assert_eq!(menu_choice("continue"), Some(MenuChoice::ContinueSession));
    assert_eq!(menu_choice("rewind"), Some(MenuChoice::Rewind));
    assert_eq!(menu_choice("quit"), Some(MenuChoice::Quit));
    assert_eq!(menu_choice("other"), None);
    let (cmd, toast) = rewind_request("2");
    assert_eq!(cmd, "/rewind 2");
    assert_eq!(toast, "Rewinding to turn 2...");
}

fn user(text: &str) -> Message {
    Message { role: Role::User, content: vec![ContentBlock::Text(text.to_string())] }
}

fn assistant(text: &str) -> Message {
    Message { role: Role::Assistant, content: vec![ContentBlock::Text(text.to_string())] }
}

#[test]
fn checkpoints_list_user_turns() {
    let long = "x".repeat(70);
    let messages = vec![
        user("  first line\nsecond line"),
        assistant("reply"),
        Message { role: Role::User, content: vec![] },
        user(&long),
    ];
    let items = checkpoint_items(&messages).unwrap();
    assert_eq!(items.len(), 3);
    assert_eq!(items[0].label, "Turn 1 — first line");
    assert_eq!(items[0].value, "1");
    assert_eq!(items[1].label, "Turn 2 — (empty)");
    assert_eq!(items[2].label, format!("Turn 3 — {}...", "x".repeat(57)));
    assert_eq!(items[2].value, "3");
}

#[test]
fn checkpoint_cut_inside_a_character_is_refused() {
    let text = format!("{}é{}", "x".repeat(56), "y".repeat(10));
    assert!(checkpoint_items(&vec![user(&text)]).is_none());
    let fine = format!("{}é{}", "x".repeat(55), "y".repeat(10));
    assert!(checkpoint_items(&vec![user(&fine)]).is_some());
}

#[test]
fn picker_opens_on_the_current_value() {
    let items = workflow_items(&vec![
        ("Code Review".to_string(), "Review".to_string(), "Please review".to_string()),
        ("Write Tests".to_string(), "Tests".to_string(), "Please test".to_string()),
    ]);
    assert_eq!(items[1].label, "Write Tests");
    assert_eq!(items[1].value, "Please test");
    assert_eq!(items[1].hint, "Tests");
    assert_eq!(picker_index(&items, "Please test"), 1);
    assert_eq!(picker_index(&items, "missing"), 0);
}

#[test]
fn running_agents_are_counted() {
    assert_eq!(running_agents(&vec![]), 0);
}
