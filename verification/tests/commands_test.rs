use sexy_claude::commands::{extract_field, parse_command, parse_frontmatter, CustomCommand};
#[test]
fn test_parse_command_simple() {
    let content = "Do something useful";
    let cmd = parse_command("test", content).unwrap();
    assert_eq!(cmd.name, "test");
    assert_eq!(cmd.description, "");
    assert_eq!(cmd.body, "Do something useful");
    assert!(!cmd.accepts_args);
}

#[test]
fn test_parse_command_with_frontmatter() {
    let content = "---\ndescription: A helpful command\nallowed-tools: Bash\n---\nDo the thing";
    let cmd = parse_command("helper", content).unwrap();
    assert_eq!(cmd.name, "helper");
    assert_eq!(cmd.description, "A helpful command");
    assert_eq!(cmd.body, "Do the thing");
    assert!(!cmd.accepts_args);
}

#[test]
fn test_parse_command_with_arguments() {
    let content = "---\ndescription: Search for stuff\n---\nSearch the codebase for $ARGUMENTS";
    let cmd = parse_command("search", content).unwrap();
    assert!(cmd.accepts_args);
    assert_eq!(cmd.render("foo bar"), "Search the codebase for foo bar");
}

#[test]
fn test_parse_command_empty_body() {
    let content = "---\ndescription: Empty\n---\n";
    assert!(parse_command("empty", content).is_none());
}

#[test]
fn test_parse_command_no_frontmatter() {
    let content = "Just a plain prompt with $ARGUMENTS placeholder";
    let cmd = parse_command("plain", content).unwrap();
    assert_eq!(cmd.description, "");
    assert!(cmd.accepts_args);
}

#[test]
fn test_parse_frontmatter_no_closing() {
    let content = "---\ndescription: Broken\nThis has no closing delimiter";
    let (desc, body) = parse_frontmatter(content);
    assert_eq!(desc, "");
    assert_eq!(body, content);
}

#[test]
fn test_render_without_args() {
    let cmd = CustomCommand {
        name: "test".to_string(),
        description: String::new(),
        body: "Fixed prompt text".to_string(),
        accepts_args: false,
    };
    assert_eq!(cmd.render("ignored"), "Fixed prompt text");
}

#[test]
fn test_render_with_args() {
    let cmd = CustomCommand {
        name: "test".to_string(),
        description: String::new(),
        body: "Find $ARGUMENTS in the code".to_string(),
        accepts_args: true,
    };
    assert_eq!(cmd.render("bug #42"), "Find bug #42 in the code");
}

#[test]
fn test_extract_field_missing() {
    assert_eq!(extract_field("description: hello", "missing"), "");
}

#[test]
fn test_extract_field_present() {
    let fm = "description: My desc\nallowed-tools: Bash, Read";
    assert_eq!(extract_field(fm, "description"), "My desc");
    assert_eq!(extract_field(fm, "allowed-tools"), "Bash, Read");
}
