use sexy_claude::markdown::{render_events, render_markdown, MdEvent, MdSpan, Tone};

fn render(text: &str) -> Vec<Vec<MdSpan>> {
    render_markdown(text).unwrap()
}

fn all_text(lines: &[Vec<MdSpan>]) -> String {
    lines.iter().flat_map(|l| l.iter()).map(|s| s.text.as_str()).collect()
}

#[test]
fn test_plain_text() {
    let lines = render("Hello world");
    assert!(all_text(&lines).contains("Hello world"));
}

#[test]
fn test_bold_text() {
    let lines = render("**bold text**");
    let span = lines.iter().flat_map(|l| l.iter()).find(|s| s.text.contains("bold text"));
    assert!(span.is_some());
    assert!(span.unwrap().style.bold);
}

#[test]
fn test_italic_text() {
    let lines = render("*italic text*");
    let span = lines.iter().flat_map(|l| l.iter()).find(|s| s.text.contains("italic text"));
    assert!(span.is_some());
    assert!(span.unwrap().style.italic);
}

#[test]
fn test_inline_code() {
    let lines = render("Use `cargo build` to compile");
    let span = lines.iter().flat_map(|l| l.iter()).find(|s| s.text.contains("cargo build"));
    assert!(span.is_some());
    assert_eq!(span.unwrap().style.tone, Tone::InlineCode);
}

#[test]
fn test_code_block() {
    let lines = render("```rust\nfn main() {}\n```");
    assert!(lines.len() >= 3);
    let first: String = lines[0].iter().map(|s| s.text.as_str()).collect();
    assert!(first.contains("```rust"));
    let last: String = lines.last().unwrap().iter().map(|s| s.text.as_str()).collect();
    assert!(last.contains("```"));
    let code: String = lines[1].iter().map(|s| s.text.as_str()).collect();
    assert!(code.contains("fn main()"));
    assert!(lines[1].iter().all(|s| matches!(s.style.tone, Tone::Rgb(..))));
}

#[test]
fn test_code_block_unknown_language() {
    let lines = render("```\nsome code\n```");
    assert!(all_text(&lines).contains("some code"));
    assert_eq!(lines[1][0].style.tone, Tone::PlainCode);
}

#[test]
fn test_headers() {
    let lines = render("# Title\n## Subtitle");
    let text = all_text(&lines);
    assert!(text.contains("# Title"));
    assert!(text.contains("## Subtitle"));
}

#[test]
fn test_unordered_list() {
    let text = all_text(&render("- item one\n- item two"));
    assert!(text.contains("item one"));
    assert!(text.contains("item two"));
}

#[test]
fn test_ordered_list() {
    let text = all_text(&render("1. first\n2. second"));
    assert!(text.contains("1."));
    assert!(text.contains("first"));
}

#[test]
fn test_empty_input() {
    assert!(render("").is_empty());
}

#[test]
fn test_horizontal_rule() {
    assert!(all_text(&render("---")).contains("─"));
}

#[test]
fn markdown_paragraphs_and_quotes() {
    let lines = render("one\n\ntwo\n\n> quoted\n> more");
    let texts: Vec<String> = lines.iter().map(|l| l.iter().map(|s| s.text.as_str()).collect()).collect();
    assert_eq!(texts[0], "one");
    assert_eq!(texts[1], "");
    assert_eq!(texts[2], "two");
    assert!(texts.iter().any(|t| t.starts_with("| quoted")));
    let quoted = lines.iter().flat_map(|l| l.iter()).find(|s| s.text == "| quoted").unwrap();
    assert_eq!(quoted.style.tone, Tone::Accent);
    assert!(quoted.style.dim);
}

#[test]
fn markdown_events_directly() {
    let events = vec![
        MdEvent::StartList(Some(7)),
        MdEvent::StartItem,
        MdEvent::Text("a".to_string()),
        MdEvent::EndItem,
        MdEvent::StartItem,
        MdEvent::Text("b\nc".to_string()),
        MdEvent::EndItem,
        MdEvent::EndList,
        MdEvent::StartHeading(3),
        MdEvent::Text("H".to_string()),
        MdEvent::EndHeading,
        MdEvent::StartCodeBlock("zzz-unknown".to_string()),
        MdEvent::Text("x\ny\n".to_string()),
        MdEvent::EndCodeBlock,
    ];
    let lines = render_events(&events, &vec![None]);
    let texts: Vec<String> = lines.iter().map(|l| l.iter().map(|s| s.text.as_str()).collect()).collect();
    assert_eq!(
        texts,
        vec!["  7. a", "  8. b", "c", "### H", "```zzz-unknown", "x", "y", "```"]
    );
    assert!(lines[3][0].style.bold);
    assert_eq!(lines[3][0].style.tone, Tone::Header);
}
