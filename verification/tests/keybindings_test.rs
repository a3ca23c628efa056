use sexy_claude::keybindings::{quit_binding, CONTROL, NO_MODIFIERS, SHIFT};
use sexy_claude::keys::KeyCode;

#[test]
fn test_quit_binding() {
    let binding = quit_binding();
    assert!(binding.matches(KeyCode::Char('q'), CONTROL));
    assert!(!binding.matches(KeyCode::Char('q'), NO_MODIFIERS));
    assert!(!binding.matches(KeyCode::Char('a'), CONTROL));
}

#[test]
fn a_binding_wants_exactly_its_modifiers() {
    let binding = quit_binding();
    assert!(!binding.matches(KeyCode::Char('q'), CONTROL | SHIFT));
    assert!(!binding.matches(KeyCode::Esc, CONTROL));
}
