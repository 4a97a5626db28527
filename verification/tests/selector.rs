use daila::activity_selector::ActivitySelectorState;

#[test]
fn empty_selector_has_no_selection() {
    let state = ActivitySelectorState::new(0);
    assert_eq!(state.selected_index(), None);
}

#[test]
fn fresh_selector_starts_at_zero() {
    let state = ActivitySelectorState::new(7);
    assert_eq!(state.selected_index(), Some(0));
    assert!(state.selected(0));
    assert!(!state.selected(1));
}

fn at(count: usize, index: usize) -> ActivitySelectorState {
    let mut state = ActivitySelectorState::new(count);
    for _ in 0..index {
        state.select_right();
    }
    state
}

#[test]
fn right_wraps_from_last_to_first() {
    let mut state = at(7, 6);
    assert_eq!(state.selected_index(), Some(6));
    state.select_right();
    assert_eq!(state.selected_index(), Some(0));
}

#[test]
fn left_wraps_from_first_to_last() {
    let mut state = at(7, 0);
    state.select_left();
    assert_eq!(state.selected_index(), Some(6));
}

#[test]
fn down_moves_by_rows_and_is_bounded() {
    let mut state = at(7, 0);
    state.select_down();
    assert_eq!(state.selected_index(), Some(3));
    state.select_down();
    assert_eq!(state.selected_index(), Some(6));
    state.select_down();
    assert_eq!(state.selected_index(), Some(6));
}

#[test]
fn up_moves_by_rows_and_is_bounded() {
    let mut state = at(7, 6);
    state.select_up();
    assert_eq!(state.selected_index(), Some(3));
    let mut state2 = at(7, 2);
    state2.select_up();
    assert_eq!(state2.selected_index(), Some(2));
}

#[test]
fn motions_on_empty_selector_are_ignored() {
    let mut state = ActivitySelectorState::new(0);
    state.select_left();
    state.select_right();
    state.select_up();
    state.select_down();
    assert_eq!(state.selected_index(), None);
}
