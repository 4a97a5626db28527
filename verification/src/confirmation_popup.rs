//! The confirmation popup: a prompt with a cancel/continue pair of
//! buttons and a two-position focus.

use crate::input::Key;
use vstd::prelude::*;

verus! {

pub struct ConfirmationPopup {}

#[derive(Clone, Copy, PartialEq, Eq, Structural, Debug)]
pub enum ConfirmationPopupAction {
    Accept,
    Decline,
}

#[derive(Clone, Copy, PartialEq, Eq, Structural, Debug)]
pub enum CursorPosition {
    LeftButton,
    RightButton,
}

/// Focus motion between the two buttons: Right moves to the right
/// button, Left back to the left one; anything else stays put.
pub open spec fn confirm_cursor_next(cur: CursorPosition, direction: Key) -> CursorPosition {
    match cur {
        CursorPosition::LeftButton => match direction {
            Key::Right => CursorPosition::RightButton,
            _ => CursorPosition::LeftButton,
        },
        CursorPosition::RightButton => match direction {
            Key::Left => CursorPosition::LeftButton,
            _ => CursorPosition::RightButton,
        },
    }
}

impl CursorPosition {
    pub fn next(&self, direction: Key) -> (r: Self)
        ensures
            r == confirm_cursor_next(*self, direction),
    {
        match self {
            CursorPosition::LeftButton => match direction {
                Key::Right => CursorPosition::RightButton,
                _ => CursorPosition::LeftButton,
            },
            CursorPosition::RightButton => match direction {
                Key::Left => CursorPosition::LeftButton,
                _ => CursorPosition::RightButton,
            },
        }
    }
}

pub struct ConfirmationPopupState {
    pub cursor_position: CursorPosition,
    pub prompt: String,
}

impl ConfirmationPopupState {
    /// A fresh prompt, focused on the cancel button.
    pub fn new(prompt: String) -> (r: Self)
        ensures
            r.cursor_position == CursorPosition::LeftButton,
            r.prompt == prompt,
    {
        Self { cursor_position: CursorPosition::LeftButton, prompt }
    }
}

impl ConfirmationPopup {
    /// Apply one key: arrows move focus, Enter resolves the prompt with
    /// `Decline` on the left button and `Accept` on the right.
    pub fn handle_key(key: Key, state: &mut ConfirmationPopupState) -> (r: Option<
        ConfirmationPopupAction,
    >)
        ensures
            final(state).prompt == old(state).prompt,
            match key {
                Key::Left | Key::Right => {
                    &&& r.is_none()
                    &&& final(state).cursor_position == confirm_cursor_next(
                        old(state).cursor_position,
                        key,
                    )
                },
                Key::Enter => {
                    &&& *final(state) == *old(state)
                    &&& r == Some(
                        match old(state).cursor_position {
                            CursorPosition::LeftButton => ConfirmationPopupAction::Decline,
                            CursorPosition::RightButton => ConfirmationPopupAction::Accept,
                        },
                    )
                },
                _ => r.is_none() && *final(state) == *old(state),
            },
    {
        match key {
            Key::Left | Key::Right => {
                state.cursor_position = state.cursor_position.next(key);
                None
            },
            Key::Enter => match state.cursor_position {
                CursorPosition::LeftButton => Some(ConfirmationPopupAction::Decline),
                CursorPosition::RightButton => Some(ConfirmationPopupAction::Accept),
            },
            _ => None,
        }
    }
}

} // verus!
