use sexy_claude::overlay::{popup_area_of, Area, OverlayItem, OverlayState};

fn item(label: &str, value: &str, hint: &str) -> OverlayItem {
    OverlayItem {
        label: label.to_string(),
        value: value.to_string(),
        hint: hint.to_string(),
    }
}

#[test]
fn test_overlay_state_navigation() {
    let mut state = OverlayState::new(
        vec![item("A", "a", ""), item("B", "b", ""), item("C", "c", "")],
        None,
    );
    assert_eq!(state.selected, 0);
    state.move_down();
    assert_eq!(state.selected, 1);
    state.move_down();
    assert_eq!(state.selected, 2);
    state.move_down();
    assert_eq!(state.selected, 0);
    state.move_up();
    assert_eq!(state.selected, 2);
}

#[test]
fn test_overlay_state_filter() {
    let mut state = OverlayState::new(
        vec![
            item("Catppuccin Mocha", "catppuccin-mocha", ""),
            item("Tokyo Night", "tokyo-night", ""),
            item("Dracula", "dracula", ""),
        ],
        None,
    );
    state.type_char('t');
    state.type_char('o');
    let filtered = state.filtered_items();
    assert_eq!(filtered.len(), 1);
    assert_eq!(filtered[0].1.value, "tokyo-night");
}

#[test]
fn test_overlay_state_selected_value() {
    let mut state = OverlayState::new(vec![item("A", "val-a", ""), item("B", "val-b", "")], None);
    assert_eq!(state.selected_value(), Some("val-a".to_string()));
    state.move_down();
    assert_eq!(state.selected_value(), Some("val-b".to_string()));
}

#[test]
fn test_overlay_state_backspace() {
    let mut state = OverlayState::new(vec![item("A", "a", "")], None);
    state.type_char('x');
    assert_eq!(state.filter, "x");
    state.backspace();
    assert_eq!(state.filter, "");
}

#[test]
fn overlay_filter_is_case_insensitive_and_keeps_indices() {
    let mut state = OverlayState::new(
        vec![item("Alpha", "1", ""), item("beta", "2", ""), item("ALPINE", "3", "")],
        Some("old".to_string()),
    );
    state.type_char('A');
    state.type_char('l');
    let f = state.filtered_items();
    assert_eq!(f.len(), 2);
    assert_eq!(f[0].0, 0);
    assert_eq!(f[1].0, 2);
    state.move_up();
    assert_eq!(state.selected, 1);
    assert_eq!(state.selected_value(), Some("3".to_string()));
    assert_eq!(state.original_theme, Some("old".to_string()));
}

#[test]
fn overlay_empty_list_and_out_of_range() {
    let mut state = OverlayState::new(vec![], None);
    state.move_down();
    state.move_up();
    assert_eq!(state.selected, 0);
    assert_eq!(state.selected_value(), None);
    let mut state = OverlayState::new(vec![item("A", "a", "")], None);
    state.type_char('z');
    assert_eq!(state.filtered_items().len(), 0);
    assert_eq!(state.selected_value(), None);
    state.backspace();
    state.backspace();
    assert_eq!(state.filter, "");
    assert_eq!(state.selected_value(), Some("a".to_string()));
}

#[test]
fn overlay_popup_placement() {
    let screen = Area { x: 0, y: 0, width: 80, height: 24 };
    let p = popup_area_of(screen, 2);
    assert_eq!(p, Area { x: 20, y: 9, width: 40, height: 6 });
    let p = popup_area_of(screen, 50);
    assert_eq!(p.height, 14);
    let wide = Area { x: 10, y: 5, width: 200, height: 100 };
    let p = popup_area_of(wide, 0);
    assert_eq!(p, Area { x: 80, y: 52, width: 60, height: 5 });
    let narrow = Area { x: 0, y: 0, width: 20, height: 10 };
    let p = popup_area_of(narrow, 1);
    assert_eq!(p, Area { x: 2, y: 2, width: 16, height: 5 });
}
