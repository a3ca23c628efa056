use sexy_claude::history::InputHistory;
use sexy_claude::keys::{Key, KeyCode};
use sexy_claude::overlay::{OverlayItem, OverlayState};
use sexy_claude::panels::{
    dashboard_key, installing_toast, picker_key, plugin_outcome, plugin_subdir, readme_fallback,
    readme_title, rename_session, verb_word, HistorySearch, PickerOutcome, PluginAction,
    PluginBrowser, PluginRun, PluginVerb, PromptOutcome, SearchOutcome, TextInput, TextViewer,
};
use sexy_claude::plugins::PluginInfo;

fn key(code: KeyCode) -> Key {
    Key { code, ctrl: false, shift: false }
}

fn history() -> InputHistory {
    let mut h = InputHistory::empty();
    h.push("git status".to_string());
    h.push("cargo test".to_string());
    h.push("git log".to_string());
    h
}

#[test]
fn history_search_opens_with_every_entry() {
    assert!(HistorySearch::open(&InputHistory::empty()).is_none());
    let s = HistorySearch::open(&history()).unwrap();
    assert_eq!(s.matches, vec!["git log", "cargo test", "git status"]);
    assert_eq!(s.selected, 0);
}

#[test]
fn history_search_filters_and_chooses() {
    let h = history();
    let mut s = HistorySearch::open(&h).unwrap();
    s.handle_key(key(KeyCode::Down), &h);
    s.handle_key(key(KeyCode::Down), &h);
    assert_eq!(s.selected, 2);
    for c in "git".chars() {
        s.handle_key(key(KeyCode::Char(c)), &h);
    }
    assert_eq!(s.query, "git");
    assert!(s.matches.iter().all(|m| m.contains("git")));
    assert_eq!(s.matches.len(), 2);
    // The selection is kept within the shorter list.
    assert_eq!(s.selected, 1);
    match s.handle_key(key(KeyCode::Enter), &h) {
        SearchOutcome::Choose(t) => assert_eq!(t, s.matches[1]),
        _ => panic!("expected a choice"),
    }
    s.handle_key(key(KeyCode::Backspace), &h);
    assert_eq!(s.query, "gi");
    assert!(matches!(s.handle_key(key(KeyCode::Esc), &h), SearchOutcome::Close));
}

#[test]
fn text_prompt_edits_and_submits() {
    let mut t = TextInput::new("Session name".to_string());
    for c in "abc".chars() {
        t.handle_key(key(KeyCode::Char(c)));
    }
    t.handle_key(key(KeyCode::Left));
    t.handle_key(key(KeyCode::Backspace));
    assert_eq!(t.value, "ac");
    assert_eq!(t.cursor, 1);
    t.handle_key(key(KeyCode::Home));
    t.handle_key(key(KeyCode::Char('é')));
    assert_eq!(t.value, "éac");
    t.handle_key(key(KeyCode::End));
    assert_eq!(t.cursor, 3);
    match t.handle_key(key(KeyCode::Enter)) {
        PromptOutcome::Submit(v) => assert_eq!(v, "éac"),
        _ => panic!("expected a submission"),
    }
    let mut blank = TextInput::new("x".to_string());
    blank.handle_key(key(KeyCode::Char(' ')));
    assert!(matches!(blank.handle_key(key(KeyCode::Enter)), PromptOutcome::Close));
}

#[test]
fn renaming_needs_the_command() {
    let (cmd, toast) = rename_session(&vec!["compact".to_string()], "work");
    assert!(cmd.is_none());
    assert_eq!(toast, "/rename not available");
    let (cmd, toast) = rename_session(&vec!["rename".to_string()], "work");
    assert_eq!(cmd.unwrap(), "/rename work");
    assert_eq!(toast, "Renamed session to \"work\"");
}

#[test]
fn text_viewer_scrolls() {
    let mut v = TextViewer::new("Help".to_string(), vec!["a".to_string(); 50]);
    assert!(v.handle_key(key(KeyCode::Down)));
    assert!(v.handle_key(key(KeyCode::Char('j'))));
    assert_eq!(v.scroll, 2);
    v.handle_key(key(KeyCode::PageDown));
    assert_eq!(v.scroll, 22);
    v.handle_key(key(KeyCode::PageUp));
    v.handle_key(key(KeyCode::PageUp));
    assert_eq!(v.scroll, 0);
    v.handle_key(key(KeyCode::Up));
    assert_eq!(v.scroll, 0);
    v.scroll = 9;
    v.handle_key(key(KeyCode::Home));
    assert_eq!(v.scroll, 0);
    assert!(!v.handle_key(key(KeyCode::Char('q'))));
    assert!(!v.handle_key(key(KeyCode::Esc)));
}

#[test]
fn agent_dashboard_scroll_stops_at_the_last_agent() {
    assert_eq!(dashboard_key(0, 3, key(KeyCode::Down)), Some(1));
    assert_eq!(dashboard_key(2, 3, key(KeyCode::Char('j'))), Some(2));
    assert_eq!(dashboard_key(0, 0, key(KeyCode::Down)), Some(0));
    assert_eq!(dashboard_key(0, 3, key(KeyCode::Up)), Some(0));
    assert_eq!(dashboard_key(2, 3, key(KeyCode::Char('k'))), Some(1));
    assert_eq!(dashboard_key(2, 3, key(KeyCode::Char('q'))), None);
}

fn plugin(name: &str, installed: bool, enabled: bool) -> PluginInfo {
    PluginInfo {
        name: name.to_string(),
        marketplace: "market".to_string(),
        description: "does things".to_string(),
        is_mcp: false,
        installed,
        enabled,
    }
}

#[test]
fn plugin_browser_keys() {
    let mut b = PluginBrowser::new(vec![plugin("a", true, true), plugin("b", false, false)]);
    match b.handle_key(key(KeyCode::Char(' '))) {
        PluginAction::Run(v, n) => {
            assert_eq!(v, PluginVerb::Disable);
            assert_eq!(n, "a@market");
        }
        _ => panic!("expected a command"),
    }
    assert!(matches!(b.handle_key(key(KeyCode::Char('i'))), PluginAction::Stay));
    b.handle_key(key(KeyCode::Down));
    b.handle_key(key(KeyCode::Char('j')));
    assert_eq!(b.cursor, 1);
    match b.handle_key(key(KeyCode::Char('i'))) {
        PluginAction::Run(v, n) => {
            assert_eq!(v, PluginVerb::Install);
            assert_eq!(n, "b@market");
        }
        _ => panic!("expected an install"),
    }
    assert!(matches!(b.handle_key(key(KeyCode::Char('u'))), PluginAction::Stay));
    assert!(matches!(b.handle_key(key(KeyCode::Enter)), PluginAction::ShowReadme(1)));
    assert!(matches!(b.handle_key(key(KeyCode::Esc)), PluginAction::Close));
}

#[test]
fn plugin_command_reports() {
    assert_eq!(verb_word(PluginVerb::Uninstall), "uninstall");
    assert_eq!(
        plugin_outcome(PluginVerb::Enable, "a@m", &PluginRun::Succeeded),
        ("Plugin enabled: a@m".to_string(), true)
    );
    assert_eq!(
        plugin_outcome(PluginVerb::Install, "a@m", &PluginRun::Failed("boom".to_string())),
        ("Install failed: boom".to_string(), false)
    );
    assert_eq!(
        plugin_outcome(PluginVerb::Disable, "a@m", &PluginRun::NotRun("missing".to_string())),
        ("Error: missing".to_string(), false)
    );
    assert_eq!(installing_toast("a@m"), "Installing a@m...");
    let p = plugin("lint", true, false);
    assert_eq!(readme_title(&p), "lint (market)");
    assert_eq!(readme_fallback(&p), "# lint\n\ndoes things\n\nNo README available.");
    assert_eq!(plugin_subdir(&p), "plugins");
}

#[test]
fn picker_keys() {
    let items = vec![
        OverlayItem { label: "One".to_string(), value: "1".to_string(), hint: String::new() },
        OverlayItem { label: "Two".to_string(), value: "2".to_string(), hint: String::new() },
    ];
    let mut st = OverlayState::new(items, None);
    assert_eq!(picker_key(&mut st, key(KeyCode::Up)), PickerOutcome::Moved);
    assert_eq!(st.selected, 1);
    assert_eq!(picker_key(&mut st, key(KeyCode::Char('o'))), PickerOutcome::Stay);
    assert_eq!(st.filter, "o");
    assert_eq!(st.selected, 0);
    assert_eq!(picker_key(&mut st, key(KeyCode::Enter)), PickerOutcome::Confirm);
    assert_eq!(picker_key(&mut st, key(KeyCode::Esc)), PickerOutcome::Close);
}
