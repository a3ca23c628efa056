use sexy_claude::questions::{parse_ask_user_questions, DialogKey, DialogOutcome, QuestionDialog};

#[test]
fn test_parse_ask_user_questions_single() {
    let json = r#"{"questions":[{"question":"Which approach?","header":"Approach","options":[{"label":"Option A","description":"First option"},{"label":"Option B","description":"Second option"}],"multiSelect":false}]}"#;
    let questions = parse_ask_user_questions(json).unwrap();
    assert_eq!(questions.len(), 1);
    assert_eq!(questions[0].question, "Which approach?");
    assert_eq!(questions[0].options.len(), 2);
    assert_eq!(questions[0].options[0].label, "Option A");
    assert_eq!(questions[0].options[1].description, "Second option");
    assert!(!questions[0].multi_select);
}

#[test]
fn test_parse_ask_user_questions_multi_select() {
    let json = r#"{"questions":[{"question":"Which features?","header":"Features","options":[{"label":"A"},{"label":"B"},{"label":"C"}],"multiSelect":true}]}"#;
    let questions = parse_ask_user_questions(json).unwrap();
    assert_eq!(questions.len(), 1);
    assert!(questions[0].multi_select);
    assert_eq!(questions[0].options.len(), 3);
}

#[test]
fn test_parse_ask_user_questions_invalid() {
    assert!(parse_ask_user_questions("not json").is_none());
    assert!(parse_ask_user_questions(r#"{"questions":[]}"#).unwrap().is_empty());
}

#[test]
fn questions_missing_parts() {
    assert!(parse_ask_user_questions(r#"{"questions":[{"options":[]}]}"#).is_none());
    assert!(parse_ask_user_questions(r#"{"questions":[{"question":"Q"}]}"#).is_none());
    assert!(parse_ask_user_questions(r#"{"questions":[{"question":"Q","options":[{"description":"d"}]}]}"#).is_none());
    let qs = parse_ask_user_questions(r#"{"questions":[{"question":"Q","options":[],"multiSelect":"yes"}]}"#).unwrap();
    assert_eq!(qs[0].header, "");
    assert!(!qs[0].multi_select);
}

fn dialog(json: &str) -> QuestionDialog {
    QuestionDialog::open(parse_ask_user_questions(json).unwrap())
}

#[test]
fn dialog_single_choice() {
    let mut d = dialog(r#"{"questions":[{"question":"Which approach?","options":[{"label":"A"},{"label":"B"}]}]}"#);
    assert_eq!(d.selected, vec![false, false]);
    assert_eq!(d.handle_key(DialogKey::Up), DialogOutcome::Stay);
    assert_eq!(d.cursor, 1);
    assert_eq!(d.handle_key(DialogKey::Down), DialogOutcome::Stay);
    assert_eq!(d.cursor, 0);
    d.handle_key(DialogKey::Down);
    assert_eq!(d.handle_key(DialogKey::Toggle), DialogOutcome::Stay);
    assert_eq!(d.selected, vec![false, false]);
    assert_eq!(
        d.handle_key(DialogKey::Confirm),
        DialogOutcome::Answer("Which approach?: B".to_string())
    );
    assert_eq!(d.handle_key(DialogKey::Cancel), DialogOutcome::Close);
}

#[test]
fn dialog_multi_select() {
    let mut d = dialog(r#"{"questions":[{"question":"Which?","options":[{"label":"A"},{"label":"B"},{"label":"C"}],"multiSelect":true}]}"#);
    assert_eq!(d.handle_key(DialogKey::Confirm), DialogOutcome::Answer("Which?: A".to_string()));
    d.handle_key(DialogKey::Toggle);
    d.handle_key(DialogKey::Down);
    d.handle_key(DialogKey::Down);
    d.handle_key(DialogKey::Toggle);
    assert_eq!(d.selected, vec![true, false, true]);
    assert_eq!(d.handle_key(DialogKey::Confirm), DialogOutcome::Answer("Which?: A, C".to_string()));
    d.handle_key(DialogKey::Toggle);
    assert_eq!(d.selected, vec![true, false, false]);
}

#[test]
fn dialog_no_options_closes() {
    let mut d = dialog(r#"{"questions":[{"question":"Empty?","options":[]}]}"#);
    assert_eq!(d.handle_key(DialogKey::Down), DialogOutcome::Stay);
    assert_eq!(d.cursor, 0);
    assert_eq!(d.handle_key(DialogKey::Confirm), DialogOutcome::Close);
    assert_eq!(d.handle_key(DialogKey::Other), DialogOutcome::Stay);
}
