use sexy_claude::commands::CustomCommand;
use sexy_claude::conversation::{ContentBlock, Message, Role};
use sexy_claude::viewers::{
    file_context, help_lines, is_markdown_file, memory_viewer, plugin_catalog, project_key,
    FoundPlugin,
};

#[test]
fn help_page_marks_unreported_commands() {
    let known = vec![
        ("clear".to_string(), "Clear the conversation".to_string()),
        ("cost".to_string(), "Show costs".to_string()),
    ];
    let custom = vec![CustomCommand {
        name: "review".to_string(),
        description: String::new(),
        body: String::new(),
        accepts_args: false,
    }];
    let lines = help_lines(&known, &vec!["clear".to_string()], &custom, &vec!["   Ctrl+Q  Quit".to_string()]);
    assert_eq!(lines[0], "# Available Commands");
    assert_eq!(lines[1], "");
    assert_eq!(lines[2], "## Slash Commands");
    assert_eq!(lines[3], format!("   /{:20} Clear the conversation", "clear"));
    assert_eq!(lines[4], format!(" ? /{:20} Show costs", "cost"));
    assert_eq!(lines[6], "## Custom Commands");
    assert_eq!(lines[7], format!("   /{:20} (no description)", "review"));
    assert_eq!(lines[9], "## Keyboard Shortcuts");
    assert_eq!(lines[10], "   Ctrl+Q  Quit");
    assert_eq!(lines.last().unwrap(), "? = may not be available in stream-json mode");
    assert_eq!(lines.len(), 13);
}

#[test]
fn help_page_pads_by_characters() {
    let known = vec![("é".repeat(3), "d".to_string())];
    let lines = help_lines(&known, &vec![], &vec![], &vec![]);
    assert_eq!(lines[3], format!(" ? /{:20} d", "é".repeat(3)));
    assert_eq!(lines.len(), 8);
}

#[test]
fn markdown_files_by_extension() {
    assert!(is_markdown_file("MEMORY.md"));
    assert!(is_markdown_file("a.md"));
    assert!(!is_markdown_file(".md"));
    assert!(!is_markdown_file("notes.mdx"));
    assert!(!is_markdown_file("md"));
}

#[test]
fn memory_view_puts_memory_first() {
    assert!(memory_viewer(vec![]).is_none());
    let v = memory_viewer(vec![
        ("zeta.md".to_string(), "z".to_string()),
        ("MEMORY.md".to_string(), "main".to_string()),
        ("alpha.md".to_string(), "a1\na2".to_string()),
    ])
    .unwrap();
    assert_eq!(v.title, "Auto-Memory (3 files)");
    assert_eq!(
        v.lines,
        vec![
            "═══ MEMORY.md ═══", "", "main", "═══ alpha.md ═══", "", "a1", "a2", "═══ zeta.md ═══",
            "", "z"
        ]
    );
}

#[test]
fn project_keys_replace_slashes() {
    assert_eq!(project_key("/Users/me/git/app"), "-Users-me-git-app");
}

#[test]
fn plugin_catalog_orders_and_marks() {
    let installed = r#"{"plugins": {"b@m": {}, "c@m": {}}}"#;
    let settings = r#"{"enabledPlugins": {"c@m": true, "b@m": false}}"#;
    let found = vec![
        FoundPlugin { marketplace: "m".to_string(), name: "a".to_string(), manifest: Some(r#"{"description": "Alpha"}"#.to_string()), is_mcp: false },
        FoundPlugin { marketplace: "m".to_string(), name: "b".to_string(), manifest: None, is_mcp: true },
        FoundPlugin { marketplace: "m".to_string(), name: "c".to_string(), manifest: Some("not json".to_string()), is_mcp: false },
    ];
    let out = plugin_catalog(Some(installed), Some(settings), found);
    let names: Vec<&str> = out.iter().map(|p| p.name.as_str()).collect();
    assert_eq!(names, vec!["c", "b", "a"]);
    assert!(out[0].enabled && out[0].installed);
    assert!(!out[1].enabled && out[1].installed && out[1].is_mcp);
    assert!(!out[2].installed);
    assert_eq!(out[2].description, "Alpha");
    assert_eq!(out[0].description, "");
}

#[test]
fn plugin_catalog_without_documents() {
    let found = vec![
        FoundPlugin { marketplace: "m".to_string(), name: "z".to_string(), manifest: None, is_mcp: false },
        FoundPlugin { marketplace: "m".to_string(), name: "y".to_string(), manifest: None, is_mcp: false },
    ];
    let out = plugin_catalog(None, None, found);
    let names: Vec<&str> = out.iter().map(|p| p.name.as_str()).collect();
    assert_eq!(names, vec!["y", "z"]);
}

fn tool(name: &str, input: &str) -> ContentBlock {
    ContentBlock::ToolUse { id: "t".to_string(), name: name.to_string(), input: input.to_string() }
}

#[test]
fn file_context_groups_by_path() {
    let messages = vec![Message {
        role: Role::Assistant,
        content: vec![
            tool("Read", r#"{"file_path": "src/b.rs"}"#),
            tool("Bash", r#"{"command": "ls"}"#),
            tool("Grep", r#"{"path": "src/a.rs", "pattern": "x"}"#),
            tool("Edit", r#"{"file_path": "src/b.rs"}"#),
            tool("Write", "not json"),
        ],
    }];
    let v = file_context(&messages).unwrap();
    assert_eq!(v.title, "File Context");
    assert_eq!(
        v.lines,
        vec!["2 files accessed", "", "  src/a.rs [Grep]", "  src/b.rs [Read, Edit]"]
    );
    assert!(file_context(&vec![]).is_none());
}
