use sexy_claude::input::InputEditor;

#[test]
fn test_insert_and_content() {
    let mut editor = InputEditor::new();
    editor.insert_char('H');
    editor.insert_char('i');
    assert_eq!(editor.content(), "Hi");
    assert_eq!(editor.cursor_position(), 2);
}

#[test]
fn test_backspace() {
    let mut editor = InputEditor::new();
    editor.insert_char('A');
    editor.insert_char('B');
    editor.backspace();
    assert_eq!(editor.content(), "A");
    assert_eq!(editor.cursor_position(), 1);
}

#[test]
fn test_backspace_empty() {
    let mut editor = InputEditor::new();
    editor.backspace();
    assert_eq!(editor.content(), "");
    assert_eq!(editor.cursor_position(), 0);
}

#[test]
fn test_move_left_right() {
    let mut editor = InputEditor::new();
    editor.insert_char('A');
    editor.insert_char('B');
    editor.insert_char('C');
    editor.move_left();
    editor.move_left();
    editor.insert_char('X');
    assert_eq!(editor.content(), "AXBC");
}

#[test]
fn test_delete() {
    let mut editor = InputEditor::new();
    editor.insert_char('A');
    editor.insert_char('B');
    editor.insert_char('C');
    editor.move_left();
    editor.move_left();
    editor.delete();
    assert_eq!(editor.content(), "AC");
}

#[test]
fn test_take_content() {
    let mut editor = InputEditor::new();
    editor.insert_char('H');
    editor.insert_char('i');
    let content = editor.take_content();
    assert_eq!(content, "Hi");
    assert!(editor.is_empty());
    assert_eq!(editor.cursor_position(), 0);
}

#[test]
fn test_newline_and_cursor_xy() {
    let mut editor = InputEditor::new();
    editor.insert_char('A');
    editor.insert_char('B');
    editor.insert_newline();
    editor.insert_char('C');
    assert_eq!(editor.cursor_xy(), (1, 1));
}

#[test]
fn test_home_end() {
    let mut editor = InputEditor::new();
    editor.insert_char('H');
    editor.insert_char('e');
    editor.insert_char('l');
    editor.insert_char('l');
    editor.insert_char('o');
    editor.move_home();
    assert_eq!(editor.cursor_position(), 0);
    editor.move_end();
    assert_eq!(editor.cursor_position(), 5);
}

#[test]
fn editor_multibyte_cursor_is_bytes() {
    let mut editor = InputEditor::new();
    editor.insert_char('é');
    editor.insert_char('漢');
    assert_eq!(editor.cursor_position(), 5);
    editor.move_left();
    assert_eq!(editor.cursor_position(), 2);
    editor.backspace();
    assert_eq!(editor.content(), "漢");
    assert_eq!(editor.cursor_position(), 0);
    editor.move_right();
    assert_eq!(editor.cursor_position(), 3);
    editor.move_right();
    assert_eq!(editor.cursor_position(), 3);
}

#[test]
fn editor_insert_then_backspace_restores() {
    let mut editor = InputEditor::new();
    editor.set_content("abc");
    editor.move_left();
    editor.insert_char('Z');
    editor.backspace();
    assert_eq!(editor.content(), "abc");
    assert_eq!(editor.cursor_position(), 2);
}

#[test]
fn editor_insert_str_and_lines() {
    let mut editor = InputEditor::new();
    editor.set_content("first\nsecond");
    assert_eq!(editor.cursor_position(), 12);
    assert_eq!(editor.cursor_xy(), (6, 1));
    editor.move_home();
    assert_eq!(editor.cursor_position(), 6);
    editor.insert_str("xy\n");
    assert_eq!(editor.content(), "first\nxy\nsecond");
    assert_eq!(editor.cursor_xy(), (0, 2));
    editor.move_left();
    editor.move_home();
    assert_eq!(editor.cursor_position(), 6);
    editor.move_end();
    assert_eq!(editor.cursor_position(), 8);
    editor.delete();
    assert_eq!(editor.content(), "first\nxysecond");
    editor.move_end();
    assert_eq!(editor.cursor_position(), 14);
    editor.delete();
    assert_eq!(editor.content(), "first\nxysecond");
}

#[test]
fn typing_then_backspace_gives_the_editor_back() {
    let mut e = InputEditor::new();
    e.insert_str("héllo\nwörld");
    e.move_left();
    e.move_left();
    let (before, at) = (e.content().to_string(), e.cursor_position());
    e.insert_char('ß');
    assert_ne!(e.content(), before);
    e.backspace();
    assert_eq!(e.content(), before);
    assert_eq!(e.cursor_position(), at);

    let mut start = InputEditor::new();
    start.backspace();
    assert_eq!(start.content(), "");
    assert_eq!(start.cursor_position(), 0);
}
