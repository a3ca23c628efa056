use sexy_claude::commands::CustomCommand;
use sexy_claude::completion::{CompletionItem, LocalAction};
use sexy_claude::history::InputHistory;
use sexy_claude::keys::{Key, KeyCode, NormalAction, NormalState, Panel};

fn key(code: KeyCode) -> Key {
    Key { code, ctrl: false, shift: false }
}

fn ctrl(c: char) -> Key {
    Key { code: KeyCode::Char(c), ctrl: true, shift: false }
}

fn items() -> Vec<CompletionItem> {
    vec![
        CompletionItem { name: "clear".to_string(), description: "Clear".to_string(), score: 0 },
        CompletionItem { name: "compact".to_string(), description: "Compact".to_string(), score: 0 },
        CompletionItem { name: "help".to_string(), description: "Help".to_string(), score: 0 },
    ]
}

fn type_text(s: &mut NormalState, text: &str) {
    for c in text.chars() {
        s.handle_key(key(KeyCode::Char(c)), false, &vec![], items());
    }
}

fn is_nothing(a: &NormalAction) -> bool {
    matches!(a, NormalAction::Nothing)
}

#[test]
fn shortcuts_open_panels_and_quit() {
    let mut s = NormalState::new(InputHistory::empty());
    assert!(matches!(s.handle_key(ctrl('q'), false, &vec![], items()), NormalAction::Quit));
    assert!(matches!(
        s.handle_key(ctrl('k'), false, &vec![], items()),
        NormalAction::Open(Panel::ActionMenu)
    ));
    assert!(matches!(
        s.handle_key(ctrl('r'), false, &vec![], items()),
        NormalAction::Open(Panel::HistorySearch)
    ));
    assert!(matches!(s.handle_key(ctrl('d'), false, &vec![], items()), NormalAction::Open(Panel::Diff)));
    // Ctrl with another letter does nothing and types nothing.
    assert!(is_nothing(&s.handle_key(ctrl('z'), false, &vec![], items())));
    assert_eq!(s.input.content(), "");
}

#[test]
fn toggles_report_their_state() {
    let mut s = NormalState::new(InputHistory::empty());
    match s.handle_key(ctrl('e'), false, &vec![], items()) {
        NormalAction::Toast(t) => assert_eq!(t, "Tool output expanded"),
        _ => panic!("expected a toast"),
    }
    assert!(s.tools_expanded);
    match s.handle_key(ctrl('e'), false, &vec![], items()) {
        NormalAction::Toast(t) => assert_eq!(t, "Tool output collapsed"),
        _ => panic!("expected a toast"),
    }
    match s.handle_key(ctrl('s'), false, &vec![], items()) {
        NormalAction::Toast(t) => assert_eq!(t, "Split pane enabled"),
        _ => panic!("expected a toast"),
    }
    assert!(s.split_pane);
}

#[test]
fn scrolling_the_conversation_and_the_split_pane() {
    let mut s = NormalState::new(InputHistory::empty());
    s.scroll_offset = 25;
    assert!(is_nothing(&s.handle_key(key(KeyCode::PageUp), false, &vec![], items())));
    assert_eq!(s.scroll_offset, 15);
    assert!(!s.auto_scroll);
    assert!(matches!(
        s.handle_key(key(KeyCode::PageDown), false, &vec![], items()),
        NormalAction::ClampScroll
    ));
    assert_eq!(s.scroll_offset, 25);
    s.clamp_scroll(30);
    assert_eq!(s.scroll_offset, 20);
    assert!(s.auto_scroll);
    s.split_pane = true;
    let shift_down = Key { code: KeyCode::PageDown, ctrl: false, shift: true };
    s.handle_key(shift_down, false, &vec![], items());
    assert_eq!(s.split_scroll, 10);
    let shift_up = Key { code: KeyCode::PageUp, ctrl: false, shift: true };
    s.handle_key(shift_up, false, &vec![], items());
    s.handle_key(shift_up, false, &vec![], items());
    assert_eq!(s.split_scroll, 0);
}

#[test]
fn typing_a_slash_opens_and_filters_the_popup() {
    let mut s = NormalState::new(InputHistory::empty());
    type_text(&mut s, "/");
    assert_eq!(s.completion.as_ref().unwrap().matches.len(), 3);
    type_text(&mut s, "he");
    let popup = s.completion.as_ref().unwrap();
    assert_eq!(popup.matches[0].name, "help");
    // Tab takes the selected command into the input.
    s.handle_key(key(KeyCode::Tab), false, &vec![], items());
    assert_eq!(s.input.content(), "/help");
    assert!(s.completion.is_none());
    // A space closes the popup.
    type_text(&mut s, " x");
    assert!(s.completion.is_none());
}

#[test]
fn popup_navigation_wraps() {
    let mut s = NormalState::new(InputHistory::empty());
    type_text(&mut s, "/");
    s.handle_key(key(KeyCode::Up), false, &vec![], items());
    assert_eq!(s.completion.as_ref().unwrap().selected, 2);
    s.handle_key(key(KeyCode::Down), false, &vec![], items());
    assert_eq!(s.completion.as_ref().unwrap().selected, 0);
    s.handle_key(key(KeyCode::Esc), false, &vec![], items());
    assert!(s.completion.is_none());
    assert_eq!(s.input.content(), "/");
}

#[test]
fn enter_sends_a_message_and_records_history() {
    let mut s = NormalState::new(InputHistory::empty());
    type_text(&mut s, "hello");
    match s.handle_key(key(KeyCode::Enter), false, &vec![], items()) {
        NormalAction::SendMessage(t) => assert_eq!(t, "hello"),
        _ => panic!("expected a message"),
    }
    assert_eq!(s.input.content(), "");
    assert_eq!(s.history.get_reverse(0), Some("hello"));
    assert_eq!(s.scroll_offset, usize::MAX);
    assert!(s.auto_scroll);
}

#[test]
fn enter_while_streaming_keeps_the_input() {
    let mut s = NormalState::new(InputHistory::empty());
    type_text(&mut s, "wait");
    assert!(is_nothing(&s.handle_key(key(KeyCode::Enter), true, &vec![], items())));
    assert_eq!(s.input.content(), "wait");
    assert_eq!(s.history.len(), 0);
}

#[test]
fn enter_classifies_commands() {
    let custom = vec![CustomCommand {
        name: "review".to_string(),
        description: String::new(),
        body: "Review $ARGUMENTS".to_string(),
        accepts_args: true,
    }];
    let mut s = NormalState::new(InputHistory::empty());
    s.scroll_offset = 7;
    type_text(&mut s, "/clear");
    s.completion = None;
    match s.handle_key(key(KeyCode::Enter), false, &custom, items()) {
        NormalAction::Local(a) => assert_eq!(a, LocalAction::Clear),
        _ => panic!("expected a local command"),
    }
    assert_eq!(s.scroll_offset, 0);
    type_text(&mut s, "/review src");
    match s.handle_key(key(KeyCode::Enter), false, &custom, items()) {
        NormalAction::SendCustom(p) => assert_eq!(p, "Review src"),
        _ => panic!("expected a custom command"),
    }
    type_text(&mut s, "/cost now");
    match s.handle_key(key(KeyCode::Enter), false, &custom, items()) {
        NormalAction::SendSlash(t) => assert_eq!(t, "/cost now"),
        _ => panic!("expected a slash command"),
    }
}

#[test]
fn up_and_down_browse_the_history() {
    let mut h = InputHistory::empty();
    h.push("first".to_string());
    h.push("second".to_string());
    let mut s = NormalState::new(h);
    s.handle_key(key(KeyCode::Up), false, &vec![], items());
    assert_eq!(s.input.content(), "second");
    assert_eq!(s.browse, Some(0));
    // The input is no longer empty, so Up goes to the input and does nothing.
    s.handle_key(key(KeyCode::Up), false, &vec![], items());
    assert_eq!(s.input.content(), "second");
    s.handle_key(key(KeyCode::Down), false, &vec![], items());
    assert_eq!(s.input.content(), "");
    assert_eq!(s.browse, None);
}

#[test]
fn older_then_newer_returns_to_an_empty_input() {
    let mut h = InputHistory::empty();
    h.push("a".to_string());
    h.push("b".to_string());
    let mut s = NormalState::new(h);
    s.handle_key(key(KeyCode::Up), false, &vec![], items());
    s.input.set_content("");
    s.handle_key(key(KeyCode::Up), false, &vec![], items());
    assert_eq!(s.input.content(), "a");
    assert_eq!(s.browse, Some(1));
    s.handle_key(key(KeyCode::Down), false, &vec![], items());
    assert_eq!(s.input.content(), "b");
    assert_eq!(s.browse, Some(0));
}

#[test]
fn editing_keys_reach_the_input() {
    let mut s = NormalState::new(InputHistory::empty());
    type_text(&mut s, "ab");
    s.handle_key(key(KeyCode::Left), false, &vec![], items());
    s.handle_key(Key { code: KeyCode::Enter, ctrl: false, shift: true }, false, &vec![], items());
    assert_eq!(s.input.content(), "a\nb");
    s.handle_key(key(KeyCode::Backspace), false, &vec![], items());
    assert_eq!(s.input.content(), "ab");
    s.handle_key(key(KeyCode::Delete), false, &vec![], items());
    assert_eq!(s.input.content(), "a");
    s.handle_key(key(KeyCode::Home), false, &vec![], items());
    s.handle_key(key(KeyCode::Char('x')), false, &vec![], items());
    assert_eq!(s.input.content(), "xa");
    s.handle_key(key(KeyCode::End), false, &vec![], items());
    s.handle_key(key(KeyCode::Char('y')), false, &vec![], items());
    assert_eq!(s.input.content(), "xay");
}
