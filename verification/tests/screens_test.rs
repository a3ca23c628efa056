use sexy_claude::screens::input_rows;
use sexy_claude::activity::SplitContent;
use sexy_claude::completion::{CompletionItem, CompletionState};
use sexy_claude::overlay::{Area, OverlayItem, OverlayState};
use sexy_claude::panels::HistorySearch;
use sexy_claude::plugins::PluginInfo;
use sexy_claude::questions::{UserQuestion, UserQuestionOption};
use sexy_claude::screens::{
    browser_screen, completion_screen, dashboard_view, picker_screen, question_screen, search_screen, split_screen,
    viewer_view, Ink, Run,
};
use sexy_claude::tracker::AgentTask;

fn screen(width: u16, height: u16) -> Area {
    Area { x: 0, y: 0, width, height }
}

fn plain(runs: &[Run]) -> Vec<(String, Ink)> {
    runs.iter().map(|r| (r.text.clone(), r.ink)).collect()
}

fn owned(v: &[(&str, Ink)]) -> Vec<(String, Ink)> {
    v.iter().map(|(t, i)| (t.to_string(), *i)).collect()
}

#[test]
fn viewer_sits_at_eighty_percent_and_marks_lines() {
    let lines = vec!["# Title".to_string(), "plain".to_string(), "+ added".to_string()];
    let v = viewer_view("Notes", &lines, 0, screen(100, 30));
    assert_eq!(v.popup, Area { x: 10, y: 3, width: 80, height: 24 });
    assert_eq!(v.title, " Notes ");
    assert_eq!(v.hint, " 1/3 | Esc to close ");
    assert_eq!(v.rows.len(), 3);
    assert_eq!(plain(&v.rows[0]), owned(&[("# Title", Ink::Heading)]));
    assert_eq!(plain(&v.rows[1]), owned(&[("plain", Ink::Text)]));
    assert_eq!(plain(&v.rows[2]), owned(&[("+ added", Ink::Added)]));
}

#[test]
fn viewer_marks_changed_words_of_a_line_pair() {
    let lines = vec!["- old word".to_string(), "+ new word".to_string()];
    let v = viewer_view("Diff", &lines, 0, screen(100, 30));
    assert_eq!(v.rows.len(), 2);
    assert_eq!(
        plain(&v.rows[0]),
        owned(&[("- ", Ink::Removed), ("old", Ink::Removed), (" ", Ink::Faint), ("word", Ink::Faint)])
    );
    assert_eq!(
        plain(&v.rows[1]),
        owned(&[("+ ", Ink::Added), ("new", Ink::Added), (" ", Ink::Faint), ("word", Ink::Faint)])
    );
}

#[test]
fn viewer_scroll_is_clamped_to_the_last_screen() {
    let lines: Vec<String> = (0..30).map(|i| format!("line {}", i)).collect();
    let v = viewer_view("Long", &lines, 25, screen(100, 30));
    // The inside is 22 rows high, so the last screen starts at line 8.
    assert_eq!(v.hint, " 26/30 | Esc to close ");
    assert_eq!(v.rows.len(), 22);
    assert_eq!(plain(&v.rows[0]), owned(&[("line 8", Ink::Text)]));
}

fn task(desc: &str, agent_type: &str, completed: bool) -> AgentTask {
    AgentTask {
        id: "t".to_string(),
        description: desc.to_string(),
        agent_type: agent_type.to_string(),
        started: std::time::Instant::now(),
        completed,
    }
}

#[test]
fn dashboard_rows_show_status_type_and_time() {
    let tasks = vec![
        task("search the code", "Explore", false),
        task("write the plan", "general-purpose-agent", true),
    ];
    let v = dashboard_view(&tasks, &vec![75, 3725], 0, screen(100, 30)).unwrap();
    assert_eq!(v.popup, Area { x: 12, y: 4, width: 75, height: 21 });
    assert_eq!(v.title, " Agent Dashboard (1 active / 2 total) ");
    assert_eq!(v.rows.len(), 2);
    assert!(v.rows[0].highlighted);
    assert!(!v.rows[1].highlighted);
    assert_eq!(
        plain(&v.rows[0].runs),
        owned(&[
            ("  RUNNING", Ink::Running),
            (" ", Ink::Text),
            ("Explore         ", Ink::Detail),
            (" ", Ink::Text),
            (" 1m15s  ", Ink::Muted),
            ("search the code", Ink::Text),
        ])
    );
    assert_eq!(
        plain(&v.rows[1].runs),
        owned(&[
            ("  DONE  ", Ink::Done),
            (" ", Ink::Text),
            ("general-purpose-", Ink::Detail),
            (" ", Ink::Text),
            ("  1h2m  ", Ink::Muted),
            ("write the plan", Ink::Text),
        ])
    );
}

#[test]
fn dashboard_refuses_a_type_cut_inside_a_character() {
    let tasks = vec![task("x", "a\u{e9}\u{e9}\u{e9}\u{e9}\u{e9}\u{e9}\u{e9}\u{e9}", false)];
    assert!(dashboard_view(&tasks, &vec![5], 0, screen(100, 30)).is_none());
}

fn question(multi: bool) -> UserQuestion {
    let opt = |l: &str, d: &str| UserQuestionOption { label: l.to_string(), description: d.to_string() };
    UserQuestion {
        question: "Pick?".to_string(),
        header: "H".to_string(),
        options: vec![opt("A", "first"), opt("B", ""), opt("C", "third")],
        multi_select: multi,
    }
}

#[test]
fn question_dialog_marks_the_cursor_row() {
    let q = question(false);
    let v = question_screen(&q, 1, &vec![false, false, false], screen(100, 30));
    assert_eq!(v.popup, Area { x: 15, y: 10, width: 70, height: 9 });
    assert_eq!(v.title, " Select One ");
    assert_eq!(v.hint, " Enter to select | Esc to dismiss ");
    assert_eq!(v.question_rows, vec!["Pick?".to_string()]);
    assert_eq!(v.rows.len(), 3);
    assert_eq!(plain(&v.rows[0].runs), owned(&[("   A", Ink::Label), (" - first", Ink::Detail)]));
    assert_eq!(plain(&v.rows[1].runs), owned(&[(" > B", Ink::Label)]));
    assert!(v.rows[1].highlighted);
    assert_eq!(plain(&v.rows[2].runs), owned(&[("   C", Ink::Label), (" - third", Ink::Detail)]));
}

#[test]
fn question_dialog_shows_ticks_for_several_answers() {
    let q = question(true);
    let v = question_screen(&q, 0, &vec![true, false], screen(100, 30));
    assert_eq!(v.title, " Select Multiple ");
    assert_eq!(v.hint, " Space to toggle | Enter to confirm | Esc to dismiss ");
    assert_eq!(plain(&v.rows[0].runs), owned(&[(" [x] A", Ink::Label), (" - first", Ink::Detail)]));
    assert_eq!(plain(&v.rows[1].runs), owned(&[(" [ ] B", Ink::Label)]));
    assert_eq!(plain(&v.rows[2].runs), owned(&[(" [ ] C", Ink::Label), (" - third", Ink::Detail)]));
}

#[test]
fn question_text_wraps_at_the_inner_width() {
    let mut q = question(false);
    q.question = "x".repeat(50);
    let v = question_screen(&q, 0, &vec![], screen(44, 30));
    assert_eq!(v.popup.width, 40);
    assert_eq!(v.question_rows, vec!["x".repeat(38), "x".repeat(12)]);
}

#[test]
fn picker_places_cursor_and_hint() {
    let item = |l: &str, h: &str| OverlayItem { label: l.to_string(), value: l.to_string(), hint: h.to_string() };
    let state = OverlayState::new(vec![item("Alpha", "dark"), item("Beta", ""), item("Gamma", "x")], None);
    let v = picker_screen(&state, "Theme", screen(100, 40));
    assert_eq!(v.popup, Area { x: 25, y: 16, width: 50, height: 7 });
    assert_eq!(v.title, " Theme ");
    assert_eq!(v.filter_line, "> ");
    assert_eq!(v.cursor_col, Some(28));
    assert!(v.separator);
    assert_eq!(v.rows.len(), 3);
    assert_eq!(v.rows[0].text, " \u{25b8} Alpha");
    assert!(v.rows[0].highlighted);
    assert_eq!(v.rows[0].hint, Some((69, "dark".to_string())));
    assert_eq!(v.rows[1].text, "   Beta");
    assert_eq!(v.rows[1].hint, None);
    assert_eq!(v.rows[2].hint, Some((72, "x".to_string())));
}

#[test]
fn picker_lists_only_matching_items() {
    let item = |l: &str| OverlayItem { label: l.to_string(), value: l.to_string(), hint: String::new() };
    let mut state = OverlayState::new(vec![item("Alpha"), item("Beta"), item("Alphabet")], None);
    state.type_char('a');
    state.type_char('l');
    let v = picker_screen(&state, "T", screen(100, 40));
    assert_eq!(v.filter_line, "> al");
    assert_eq!(v.cursor_col.unwrap(), v.popup.x + 1 + 4);
    let texts: Vec<String> = v.rows.iter().map(|r| r.text.clone()).collect();
    assert_eq!(texts, vec![" \u{25b8} Alpha".to_string(), "   Alphabet".to_string()]);
}

#[test]
fn plugin_browser_lists_status_name_and_description() {
    let plugin = |n: &str, mcp: bool, installed: bool, enabled: bool| PluginInfo {
        name: n.to_string(),
        marketplace: "m".to_string(),
        description: format!("about {}", n),
        is_mcp: mcp,
        installed,
        enabled,
    };
    let ps = vec![plugin("alpha", true, true, true), plugin("beta", false, false, false)];
    let v = browser_screen(&ps, 1, screen(100, 30));
    assert_eq!(v.popup, Area { x: 10, y: 3, width: 80, height: 24 });
    assert_eq!(v.title, " Plugins (2 available, 1 enabled) ");
    assert_eq!(v.hint, " Enter:readme  Space:toggle  i:install  u:uninstall  Esc:close ");
    assert_eq!(v.rows.len(), 2);
    assert_eq!(
        plain(&v.rows[0].runs),
        owned(&[
            (" [+] ", Ink::Done),
            ("alpha", Ink::Label),
            (" [MCP]", Ink::Detail),
            (" \u{2014} ", Ink::Muted),
            ("about alpha", Ink::Muted),
        ])
    );
    assert!(!v.rows[0].highlighted);
    assert!(v.rows[1].highlighted);
    assert_eq!(
        plain(&v.rows[1].runs),
        owned(&[(" [ ] ", Ink::Muted), ("beta", Ink::Label), (" \u{2014} ", Ink::Muted), ("about beta", Ink::Muted)])
    );
}

#[test]
fn history_search_shows_first_lines_and_the_query() {
    let s = HistorySearch {
        query: String::new(),
        matches: vec!["fix the bug".to_string(), "line one\nline two".to_string()],
        selected: 1,
    };
    let v = search_screen(&s, screen(100, 30));
    assert_eq!(v.popup, Area { x: 20, y: 7, width: 60, height: 16 });
    assert_eq!(v.title, " History Search: (type to filter) ");
    assert_eq!(v.hint, " 2 matches | Enter to select | Esc to cancel ");
    assert_eq!(v.rows.len(), 2);
    assert_eq!(plain(&v.rows[0].runs), owned(&[("   fix the bug", Ink::Label)]));
    assert!(!v.rows[0].highlighted);
    assert_eq!(plain(&v.rows[1].runs), owned(&[(" \u{25b8} line one ...", Ink::Label)]));
    assert!(v.rows[1].highlighted);

    let q = HistorySearch { query: "fix".to_string(), matches: vec![], selected: 0 };
    let v = search_screen(&q, screen(100, 30));
    assert_eq!(v.title, " History Search: fix ");
    assert!(v.rows.is_empty());
}

#[test]
fn completion_popup_sits_above_the_input() {
    let item = |n: &str, d: &str| CompletionItem { name: n.to_string(), description: d.to_string(), score: 0 };
    let state = CompletionState::new(vec![item("help", "Show help"), item("clear", "")]);
    let input = Area { x: 0, y: 20, width: 100, height: 3 };
    let v = completion_screen(&state, input, 70).unwrap();
    assert_eq!(v.popup, Area { x: 1, y: 16, width: 24, height: 4 });
    assert_eq!(v.rows.len(), 2);
    assert!(v.rows[0].highlighted);
    assert_eq!(
        plain(&v.rows[0].runs),
        owned(&[(" \u{25b8} /help", Ink::Label), ("  ", Ink::Label), ("Show help", Ink::Detail)])
    );
    assert_eq!(plain(&v.rows[1].runs), owned(&[("   /clear", Ink::Label)]));

    let empty = CompletionState::new(vec![]);
    assert!(completion_screen(&empty, input, 70).is_none());
}

#[test]
fn split_pane_marks_diff_lines() {
    let lines: Vec<String> =
        ["--- a.rs", "+++ a.rs", "@@ -1 +1 @@", "-old", "+new", " same"].iter().map(|l| l.to_string()).collect();
    let v = split_screen(&SplitContent::DiffView(lines), 0, 10);
    assert_eq!(v.first, 0);
    assert_eq!(
        plain(&v.rows),
        owned(&[
            ("--- a.rs", Ink::Heading),
            ("+++ a.rs", Ink::Heading),
            ("@@ -1 +1 @@", Ink::HunkHeader),
            ("-old", Ink::Removed),
            ("+new", Ink::Added),
            (" same", Ink::Text),
        ])
    );
}

#[test]
fn split_pane_scroll_stops_at_the_last_screen() {
    let lines: Vec<String> = (0..30).map(|i| format!("+{}", i)).collect();
    let v = split_screen(&SplitContent::FilePreview("src/a.rs".to_string(), lines), 50, 10);
    assert_eq!(v.first, 20);
    assert_eq!(v.rows.len(), 10);
    assert_eq!(v.rows[0].text, "+20");
    assert_eq!(v.rows[0].ink, Ink::Text);
}

#[test]
fn input_rows_follow_the_lines_within_a_third_of_the_screen() {
    assert_eq!(input_rows("", 40), 1);
    assert_eq!(input_rows("one", 40), 2);
    assert_eq!(input_rows("a\nb\nc", 40), 4);
    assert_eq!(input_rows("a\nb\nc\nd\ne\nf", 12), 4);
    assert_eq!(input_rows("a\nb\nc\nd\ne\nf", 3), 3);
    assert_eq!(input_rows(&"x\n".repeat(30), 90), 10);
}
