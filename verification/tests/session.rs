use daila::activites::{ActivitiesStore, Activity, ActivityId, ActivityTypesStore};
use daila::confirmation_popup::CursorPosition as ConfirmCursor;
use daila::daila::{ConfirmationAction, Daila, DailaEvent, DailaState};
use daila::input::Key;

fn two_types() -> ActivityTypesStore {
    let mut store = ActivityTypesStore::empty();
    store.create_new_activity(String::from("Run"));
    store.create_new_activity(String::from("Lift"));
    store
}

#[test]
fn keymap_matches_the_help_panel() {
    for event in DailaEvent::instructions() {
        let key = Key::Char(event.to_char());
        assert_eq!(DailaEvent::from_key(key), Some(event));
        assert!(!event.to_description().is_empty());
    }
    assert_eq!(DailaEvent::from_key(Key::Char('z')), None);
    assert_eq!(DailaEvent::from_key(Key::Up), Some(DailaEvent::ActivityUp));
    assert_eq!(DailaEvent::from_key(Key::Down), Some(DailaEvent::ActivityDown));
    assert_eq!(DailaEvent::from_key(Key::Left), Some(DailaEvent::ActivityLeft));
    assert_eq!(DailaEvent::from_key(Key::Right), Some(DailaEvent::ActivityRight));
}

#[test]
fn toggle_flips_completion_on_the_active_date() {
    let mut session = Daila::new(two_types(), ActivitiesStore::empty());
    let date = session.active_date;
    assert_eq!(session.handle_key(Key::Char('a')), Some(()));
    assert!(session.activities.completed_on(date, ActivityId(0)));
    assert_eq!(session.activities.activities().len(), 1);
    session.handle_key(Key::Char('a'));
    assert!(!session.activities.completed_on(date, ActivityId(0)));
    assert_eq!(session.activities.activities().len(), 0);
}

#[test]
fn toggle_without_selection_is_ignored() {
    let mut session = Daila::new(ActivityTypesStore::empty(), ActivitiesStore::empty());
    assert_eq!(session.handle_key(Key::Char('a')), Some(()));
    assert_eq!(session.activities.activities().len(), 0);
}

#[test]
fn selector_motion_keys_move_the_cursor() {
    let mut session = Daila::new(two_types(), ActivitiesStore::empty());
    assert_eq!(session.activity_selector_state.selected_index(), Some(0));
    session.handle_key(Key::Right);
    assert_eq!(session.activity_selector_state.selected_index(), Some(1));
    session.handle_key(Key::Right);
    assert_eq!(session.activity_selector_state.selected_index(), Some(0));
    session.handle_key(Key::Left);
    assert_eq!(session.activity_selector_state.selected_index(), Some(1));
}

#[test]
fn day_navigation_moves_the_active_date() {
    let mut session = Daila::new(two_types(), ActivitiesStore::empty());
    let today = session.active_date;
    session.handle_key(Key::Char('f'));
    assert_eq!(session.active_date.days_diff(today), 1);
    session.handle_key(Key::Char('F'));
    assert_eq!(session.active_date, today);
    session.handle_key(Key::Char('r'));
    assert_eq!(session.active_date, today);
}

#[test]
fn save_and_quit_requests_a_save() {
    let mut session = Daila::new(two_types(), ActivitiesStore::empty());
    session.running = true;
    session.handle_key(Key::Char('a'));
    assert_eq!(session.handle_key(Key::Char('s')), Some(()));
    assert!(!session.running);
    assert!(session.save_requested);
}

#[test]
fn confirmed_quit_without_saving_requests_no_save() {
    let mut session = Daila::new(two_types(), ActivitiesStore::empty());
    session.running = true;
    session.handle_key(Key::Char('a'));
    session.handle_key(Key::Char('q'));
    match &session.state {
        DailaState::ConfirmationPopup { action, state } => {
            assert!(matches!(action, ConfirmationAction::SaveWithoutQuitting));
            assert_eq!(state.prompt, "Quit without saving?");
        },
        _ => panic!("expected a confirmation popup"),
    }
    session.handle_key(Key::Right);
    assert_eq!(session.handle_key(Key::Enter), Some(()));
    assert!(!session.running);
    assert!(!session.save_requested);
    assert!(matches!(session.state, DailaState::Default));
}

#[test]
fn declined_quit_returns_to_the_session() {
    let mut session = Daila::new(two_types(), ActivitiesStore::empty());
    session.running = true;
    session.handle_key(Key::Char('q'));
    assert_eq!(session.handle_key(Key::Enter), Some(()));
    assert!(session.running);
    assert!(matches!(session.state, DailaState::Default));
}

#[test]
fn delete_asks_then_removes_and_keeps_orphans() {
    let mut log = ActivitiesStore::empty();
    let mut session = Daila::new(two_types(), log);
    let date = session.active_date;
    session.activities.add_activity(Activity::new(ActivityId(1), date));
    // Move to the second type and ask for deletion.
    session.handle_key(Key::Right);
    session.handle_key(Key::Char('d'));
    match &session.state {
        DailaState::ConfirmationPopup { action, state } => {
            assert!(matches!(action, ConfirmationAction::DeleteActivity(ActivityId(1))));
            assert_eq!(state.prompt, "Confirm deletion of: Lift");
            assert_eq!(state.cursor_position, ConfirmCursor::LeftButton);
        },
        _ => panic!("expected a confirmation popup"),
    }
    session.handle_key(Key::Right);
    session.handle_key(Key::Enter);
    assert_eq!(session.activity_types.len(), 1);
    assert!(session.activity_types.activity_type(ActivityId(1)).is_none());
    assert_eq!(session.activity_selector_state.selected_index(), Some(0));
    // The orphaned record stays in the log, invisible to the selector.
    assert_eq!(session.activities.activities().len(), 1);
    let options = session.activity_selector_options();
    assert_eq!(options.len(), 1);
    assert_eq!(options[0].activity_type.name, "Run");
    log = session.activities;
    assert!(log.completed_on(date, ActivityId(1)));
}

#[test]
fn create_flow_registers_the_typed_name() {
    let mut session = Daila::new(two_types(), ActivitiesStore::empty());
    session.handle_key(Key::Char('c'));
    assert!(matches!(session.state, DailaState::ActivityPopup { .. }));
    for c in ['Y', 'o', 'g', 'a'] {
        assert_eq!(session.handle_key(Key::Char(c)), None);
    }
    session.handle_key(Key::Down);
    session.handle_key(Key::Right);
    assert_eq!(session.handle_key(Key::Enter), Some(()));
    assert!(matches!(session.state, DailaState::Default));
    assert_eq!(session.activity_types.len(), 3);
    assert_eq!(
        session.activity_types.activity_type(ActivityId(2)).unwrap().name,
        "Yoga"
    );
    assert_eq!(session.activity_selector_state.activity_count, 3);
    assert_eq!(session.activity_selector_state.selected_index(), Some(0));
}

#[test]
fn edit_flow_renames_the_selected_type() {
    let mut session = Daila::new(two_types(), ActivitiesStore::empty());
    session.handle_key(Key::Char('e'));
    match &session.state {
        DailaState::ActivityPopup { state } => {
            assert_eq!(state.text_input, vec!['R', 'u', 'n']);
        },
        _ => panic!("expected the editor popup"),
    }
    session.handle_key(Key::Char('!'));
    session.handle_key(Key::Down);
    session.handle_key(Key::Right);
    assert_eq!(session.handle_key(Key::Enter), Some(()));
    assert_eq!(
        session.activity_types.activity_type(ActivityId(0)).unwrap().name,
        "Run!"
    );
    assert_eq!(session.activity_types.len(), 2);
}

#[test]
fn editor_exit_leaves_everything_unchanged() {
    let mut session = Daila::new(two_types(), ActivitiesStore::empty());
    session.handle_key(Key::Char('c'));
    session.handle_key(Key::Down);
    assert_eq!(session.handle_key(Key::Enter), Some(()));
    assert!(matches!(session.state, DailaState::Default));
    assert_eq!(session.activity_types.len(), 2);
}

#[test]
fn heatmap_values_follow_the_selected_type() {
    let mut session = Daila::new(two_types(), ActivitiesStore::empty());
    let date = session.active_date;
    session.activities.add_activity(Activity::new(ActivityId(0), date));
    session.activities.add_activity(Activity::new(ActivityId(1), date));
    assert_eq!(session.heatmap_values().len(), 1);
    assert_eq!(session.heatmap_values()[0].activity_id, ActivityId(0));
    session.handle_key(Key::Right);
    assert_eq!(session.heatmap_values()[0].activity_id, ActivityId(1));
}

#[test]
fn selected_option_reports_completion() {
    let mut session = Daila::new(two_types(), ActivitiesStore::empty());
    let date = session.active_date;
    session.activities.add_activity(Activity::new(ActivityId(0), date));
    let option = session.selected_activity_option().unwrap();
    assert!(option.completed);
    assert_eq!(option.activity_type.name, "Run");
    session.handle_key(Key::Right);
    let option = session.selected_activity_option().unwrap();
    assert!(!option.completed);
}
