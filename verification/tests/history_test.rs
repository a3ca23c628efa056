use sexy_claude::history::{InputHistory, MAX_ENTRIES};

fn test_history() -> InputHistory {
    InputHistory::empty()
}

#[test]
fn test_push_and_get() {
    let mut h = test_history();
    h.push("first".to_string());
    h.push("second".to_string());
    assert_eq!(h.get_reverse(0), Some("second"));
    assert_eq!(h.get_reverse(1), Some("first"));
    assert_eq!(h.get_reverse(2), None);
}

#[test]
fn test_deduplication() {
    let mut h = test_history();
    h.push("hello".to_string());
    h.push("world".to_string());
    h.push("hello".to_string());
    assert_eq!(h.len(), 2);
    assert_eq!(h.get_reverse(0), Some("hello"));
    assert_eq!(h.get_reverse(1), Some("world"));
}

#[test]
fn test_empty_not_pushed() {
    let mut h = test_history();
    h.push("".to_string());
    assert_eq!(h.len(), 0);
}

#[test]
fn test_max_entries() {
    let mut h = test_history();
    for i in 0..600 {
        h.push(format!("entry {i}"));
    }
    assert_eq!(h.len(), MAX_ENTRIES);
    assert_eq!(h.get_reverse(0), Some("entry 599"));
}

#[test]
fn test_search_fuzzy() {
    let mut h = test_history();
    h.push("fix the login bug".to_string());
    h.push("add user authentication".to_string());
    h.push("fix the signup flow".to_string());

    let results = h.search("fix");
    assert_eq!(results.len(), 2);
    assert!(results.iter().any(|(_, e)| e.contains("login")));
    assert!(results.iter().any(|(_, e)| e.contains("signup")));
}

#[test]
fn test_search_empty_returns_all() {
    let mut h = test_history();
    h.push("first".to_string());
    h.push("second".to_string());
    let results = h.search("");
    assert_eq!(results.len(), 2);
    assert_eq!(results[0].1, "second");
}

#[test]
fn test_jsonl_roundtrip() {
    let mut h = test_history();
    h.push("line one".to_string());
    h.push("line\nwith\nnewlines".to_string());
    h.push("line \"with\" quotes".to_string());
    let saved = h.to_jsonl();

    let h = InputHistory::from_jsonl(&saved);
    assert_eq!(h.len(), 3);
    assert_eq!(h.get_reverse(0), Some("line \"with\" quotes"));
    assert_eq!(h.get_reverse(1), Some("line\nwith\nnewlines"));
    assert_eq!(h.get_reverse(2), Some("line one"));
}

#[test]
fn history_file_format() {
    let mut h = test_history();
    h.push("a".to_string());
    h.push("b\"c".to_string());
    assert_eq!(h.to_jsonl(), "\"a\"\n\"b\\\"c\"\n");
}

#[test]
fn history_load_skips_bad_lines() {
    let h = InputHistory::from_jsonl("\"one\"\nnot json\n\"\"\n42\n\"two\"\r\n\"one\"");
    assert_eq!(h.len(), 3);
    assert_eq!(h.get_reverse(0), Some("one"));
    assert_eq!(h.get_reverse(1), Some("two"));
    assert_eq!(h.get_reverse(2), Some("one"));
}

#[test]
fn history_push_trims_loaded_excess() {
    let mut content = String::new();
    for i in 0..700 {
        content.push_str(&format!("\"e{i}\"\n"));
    }
    let mut h = InputHistory::from_jsonl(&content);
    assert_eq!(h.len(), 700);
    h.push("e5".to_string());
    assert_eq!(h.len(), MAX_ENTRIES);
    assert_eq!(h.get_reverse(0), Some("e5"));
    assert_eq!(h.get_reverse(1), Some("e699"));
}

#[test]
fn history_push_twice_same_as_once() {
    let mut h = test_history();
    h.push("x".to_string());
    h.push("y".to_string());
    h.push("y".to_string());
    assert_eq!(h.len(), 2);
    assert_eq!(h.get_reverse(0), Some("y"));
}

#[test]
fn history_search_orders_by_score_then_recency() {
    let mut h = test_history();
    h.push("abc".to_string());
    h.push("xyz".to_string());
    h.push("abc def".to_string());
    h.push("abc".to_string());
    let results = h.search("abc");
    assert_eq!(results.len(), 2);
    for w in results.windows(2) {
        assert!(w[0].0 != w[1].0);
    }
    let idxs: Vec<usize> = results.iter().map(|r| r.0).collect();
    assert!(idxs.contains(&0));
    assert!(idxs.contains(&1));
    assert_eq!(h.search("qqq").len(), 0);
}
