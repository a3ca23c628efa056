use sexy_claude::diff::{diff_lines, diff_words, format_unified, tokenize_words, with_context, DiffOp};
#[test]
fn test_identical() {
    let ops = diff_lines("hello\nworld", "hello\nworld");
    assert_eq!(ops, vec![DiffOp::Equal("hello"), DiffOp::Equal("world")]);
}

#[test]
fn test_simple_edit() {
    let ops = diff_lines("hello\nworld", "hello\nearth");
    assert_eq!(
        ops,
        vec![
            DiffOp::Equal("hello"),
            DiffOp::Remove("world"),
            DiffOp::Add("earth"),
        ]
    );
}

#[test]
fn test_addition() {
    let ops = diff_lines("a\nc", "a\nb\nc");
    assert_eq!(
        ops,
        vec![DiffOp::Equal("a"), DiffOp::Add("b"), DiffOp::Equal("c"),]
    );
}

#[test]
fn test_removal() {
    let ops = diff_lines("a\nb\nc", "a\nc");
    assert_eq!(
        ops,
        vec![DiffOp::Equal("a"), DiffOp::Remove("b"), DiffOp::Equal("c"),]
    );
}

#[test]
fn test_empty_to_something() {
    let ops = diff_lines("", "hello");
    assert_eq!(ops, vec![DiffOp::Add("hello")]);
}

#[test]
fn test_something_to_empty() {
    let ops = diff_lines("hello", "");
    assert_eq!(ops, vec![DiffOp::Remove("hello")]);
}

#[test]
fn test_format_unified() {
    let ops = diff_lines("hello\nworld", "hello\nearth");
    let output = format_unified(&ops);
    assert_eq!(output, "  hello\n- world\n+ earth\n");
}

#[test]
fn test_with_context() {
    let ops = vec![
        DiffOp::Equal("line1"),
        DiffOp::Equal("line2"),
        DiffOp::Equal("line3"),
        DiffOp::Remove("old"),
        DiffOp::Add("new"),
        DiffOp::Equal("line5"),
        DiffOp::Equal("line6"),
        DiffOp::Equal("line7"),
    ];
    let visible = with_context(&ops, 1);
    // Should show: line3 (1 before), old, new, line5 (1 after)
    assert_eq!(visible.len(), 4);
    assert_eq!(*visible[0], DiffOp::Equal("line3"));
    assert_eq!(*visible[1], DiffOp::Remove("old"));
    assert_eq!(*visible[2], DiffOp::Add("new"));
    assert_eq!(*visible[3], DiffOp::Equal("line5"));
}

#[test]
fn test_duplicate_lines_handled() {
    // This is the case the old naive diff got wrong
    let old = "{\n    a\n}\n{\n    b\n}";
    let new = "{\n    a\n}\n{\n    c\n}";
    let ops = diff_lines(old, new);
    // Should only show b→c change, not match braces incorrectly
    let changes: Vec<_> = ops
        .iter()
        .filter(|o| !matches!(o, DiffOp::Equal(_)))
        .collect();
    assert_eq!(changes.len(), 2); // Remove "    b", Add "    c"
}

#[test]
fn test_tokenize_words() {
    let tokens = tokenize_words("hello  world");
    assert_eq!(tokens, vec!["hello", "  ", "world"]);
}

#[test]
fn test_tokenize_words_leading_space() {
    let tokens = tokenize_words("  hello");
    assert_eq!(tokens, vec!["  ", "hello"]);
}

#[test]
fn test_tokenize_words_empty() {
    let tokens = tokenize_words("");
    assert!(tokens.is_empty());
}

#[test]
fn test_diff_words_single_word_change() {
    let ops = diff_words("hello world", "hello earth");
    assert_eq!(
        ops,
        vec![
            DiffOp::Equal("hello"),
            DiffOp::Equal(" "),
            DiffOp::Remove("world"),
            DiffOp::Add("earth"),
        ]
    );
}

#[test]
fn test_diff_words_identical() {
    let ops = diff_words("foo bar", "foo bar");
    assert_eq!(
        ops,
        vec![
            DiffOp::Equal("foo"),
            DiffOp::Equal(" "),
            DiffOp::Equal("bar"),
        ]
    );
}

#[test]
fn test_diff_words_insertion() {
    let ops = diff_words("a c", "a b c");
    let adds: Vec<_> = ops.iter().filter(|o| matches!(o, DiffOp::Add(_))).collect();
    assert!(!adds.is_empty());
}
