use pinst::prompt::{Key, Picker, ScopeArg};

fn items(names: &[&str]) -> Vec<(String, bool)> {
    names.iter().map(|n| (n.to_string(), false)).collect()
}

#[test]
fn the_default_scope_is_whatever_the_caller_passed_in() {
    let picker = Picker::new(ScopeArg::Global, items(&["a"]), items(&["b"]));
    assert_eq!(picker.scope(), ScopeArg::Global);
}

#[test]
fn arrow_keys_toggle_between_the_two_scopes() {
    let mut picker = Picker::new(ScopeArg::Project, items(&[]), items(&[]));
    picker.handle_key(Key::Down);
    assert_eq!(picker.scope(), ScopeArg::Global);
    picker.handle_key(Key::Up);
    assert_eq!(picker.scope(), ScopeArg::Project);
}

#[test]
fn space_toggles_the_item_under_the_cursor_only() {
    let mut picker = Picker::new(ScopeArg::Project, items(&["a", "b"]), items(&[]));
    picker.handle_key(Key::Enter); // scope -> skills
    picker.handle_key(Key::Char(' '));
    assert_eq!(picker.selected_skills(), vec!["a".to_string()]);
    picker.handle_key(Key::Down);
    picker.handle_key(Key::Char(' '));
    assert_eq!(
        picker.selected_skills(),
        vec!["a".to_string(), "b".to_string()]
    );
}

#[test]
fn a_selects_every_remaining_item() {
    let mut picker = Picker::new(ScopeArg::Project, items(&["a", "b", "c"]), items(&[]));
    picker.handle_key(Key::Enter);
    picker.handle_key(Key::Char('a'));
    assert_eq!(picker.selected_skills().len(), 3);
}

#[test]
fn the_full_flow_reaches_confirmed_with_the_right_selection() {
    let mut picker = Picker::new(
        ScopeArg::Project,
        items(&["skill-a", "skill-b"]),
        items(&["cmd-a"]),
    );
    picker.handle_key(Key::Enter); // scope -> skills
    picker.handle_key(Key::Char(' ')); // tick skill-a
    picker.handle_key(Key::Enter); // skills -> commands
    picker.handle_key(Key::Char('a')); // all commands
    picker.handle_key(Key::Enter); // commands -> confirm
    assert!(!picker.confirmed());
    picker.handle_key(Key::Enter); // confirm
    assert!(picker.confirmed());
    assert_eq!(picker.selected_skills(), vec!["skill-a".to_string()]);
    assert_eq!(picker.selected_commands(), vec!["cmd-a".to_string()]);
}

#[test]
fn esc_cancels_from_any_step_and_further_keys_are_ignored() {
    let mut picker = Picker::new(ScopeArg::Project, items(&["a"]), items(&["b"]));
    picker.handle_key(Key::Enter);
    picker.handle_key(Key::Esc);
    assert!(picker.cancelled());
    assert!(!picker.confirmed());
    // Nothing after cancel changes the state.
    picker.handle_key(Key::Char(' '));
    assert!(picker.selected_skills().is_empty());
}

#[test]
fn cursor_movement_wraps_at_both_ends() {
    let mut picker = Picker::new(ScopeArg::Project, items(&["a", "b"]), items(&[]));
    picker.handle_key(Key::Enter);
    picker.handle_key(Key::Up); // wraps from 0 to the last item
    picker.handle_key(Key::Char(' '));
    assert_eq!(picker.selected_skills(), vec!["b".to_string()]);
}
