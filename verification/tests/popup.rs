use daila::activites::ActivityId;
use daila::activity_popup::{
    ActivityPopup, ActivityPopupAction, ActivityPopupState, CursorPosition,
};
use daila::confirmation_popup::{
    ConfirmationPopup, ConfirmationPopupAction, ConfirmationPopupState,
    CursorPosition as ConfirmCursor,
};
use daila::input::Key;

#[test]
fn creator_focus_walk() {
    let mut state = ActivityPopupState::new_creator();
    assert_eq!(state.cursor_position, CursorPosition::TextInput);
    // Down with no previously visited button lands on the exit button.
    assert!(ActivityPopup::handle_key(Key::Down, &mut state).is_none());
    assert_eq!(state.cursor_position, CursorPosition::ExitButton);
    // Right reaches the create button, Up returns to the text box.
    ActivityPopup::handle_key(Key::Right, &mut state);
    assert_eq!(state.cursor_position, CursorPosition::CreateOrEditButton);
    ActivityPopup::handle_key(Key::Up, &mut state);
    assert_eq!(state.cursor_position, CursorPosition::TextInput);
    // Down now returns to the previously visited create button.
    ActivityPopup::handle_key(Key::Down, &mut state);
    assert_eq!(state.cursor_position, CursorPosition::CreateOrEditButton);
}

#[test]
fn typing_edits_only_the_focused_text_box() {
    let mut state = ActivityPopupState::new_creator();
    ActivityPopup::handle_key(Key::Char('J'), &mut state);
    ActivityPopup::handle_key(Key::Char('o'), &mut state);
    ActivityPopup::handle_key(Key::Char('g'), &mut state);
    assert_eq!(state.text_input, vec!['J', 'o', 'g']);
    ActivityPopup::handle_key(Key::Backspace, &mut state);
    assert_eq!(state.text_input, vec!['J', 'o']);
    // Away from the text box neither chars nor backspace edit it.
    ActivityPopup::handle_key(Key::Down, &mut state);
    ActivityPopup::handle_key(Key::Char('x'), &mut state);
    ActivityPopup::handle_key(Key::Backspace, &mut state);
    assert_eq!(state.text_input, vec!['J', 'o']);
}

#[test]
fn enter_on_create_emits_the_typed_name() {
    let mut state = ActivityPopupState::new_creator();
    for c in ['R', 'u', 'n'] {
        ActivityPopup::handle_key(Key::Char(c), &mut state);
    }
    assert!(ActivityPopup::handle_key(Key::Enter, &mut state).is_none());
    ActivityPopup::handle_key(Key::Down, &mut state);
    ActivityPopup::handle_key(Key::Right, &mut state);
    match ActivityPopup::handle_key(Key::Enter, &mut state) {
        Some(ActivityPopupAction::CreateActivity(name)) => assert_eq!(name, "Run"),
        other => panic!("unexpected action: {:?}", other.is_some()),
    }
}

#[test]
fn enter_on_save_emits_the_edit() {
    let mut state = ActivityPopupState::new_editor(vec!['J', 'o', 'g'], ActivityId(4));
    ActivityPopup::handle_key(Key::Char('s'), &mut state);
    ActivityPopup::handle_key(Key::Down, &mut state);
    ActivityPopup::handle_key(Key::Right, &mut state);
    match ActivityPopup::handle_key(Key::Enter, &mut state) {
        Some(ActivityPopupAction::EditActivity(id, name)) => {
            assert_eq!(id, ActivityId(4));
            assert_eq!(name, "Jogs");
        },
        other => panic!("unexpected action: {:?}", other.is_some()),
    }
}

#[test]
fn enter_on_exit_emits_exit() {
    let mut state = ActivityPopupState::new_creator();
    ActivityPopup::handle_key(Key::Down, &mut state);
    assert!(matches!(
        ActivityPopup::handle_key(Key::Enter, &mut state),
        Some(ActivityPopupAction::Exit)
    ));
}

#[test]
fn confirmation_focus_toggles() {
    let mut state = ConfirmationPopupState::new(String::from("Sure?"));
    assert_eq!(state.cursor_position, ConfirmCursor::LeftButton);
    assert!(ConfirmationPopup::handle_key(Key::Right, &mut state).is_none());
    assert_eq!(state.cursor_position, ConfirmCursor::RightButton);
    ConfirmationPopup::handle_key(Key::Right, &mut state);
    assert_eq!(state.cursor_position, ConfirmCursor::RightButton);
    ConfirmationPopup::handle_key(Key::Left, &mut state);
    assert_eq!(state.cursor_position, ConfirmCursor::LeftButton);
}

#[test]
fn confirmation_enter_resolves_by_focus() {
    let mut state = ConfirmationPopupState::new(String::from("Sure?"));
    assert!(matches!(
        ConfirmationPopup::handle_key(Key::Enter, &mut state),
        Some(ConfirmationPopupAction::Decline)
    ));
    ConfirmationPopup::handle_key(Key::Right, &mut state);
    assert!(matches!(
        ConfirmationPopup::handle_key(Key::Enter, &mut state),
        Some(ConfirmationPopupAction::Accept)
    ));
}
