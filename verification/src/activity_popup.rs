//! The activity editor/creator popup: a text buffer, two buttons, and
//! focus motion between them.

use crate::activites::ActivityId;
use crate::input::Key;
use vstd::prelude::*;

verus! {

pub struct ActivityPopup {}

pub enum ActivityPopupAction {
    CreateActivity(String),
    EditActivity(ActivityId, String),
    Exit,
}

#[derive(Clone, Copy, PartialEq, Eq, Structural, Debug)]
pub enum CursorPosition {
    TextInput,
    CreateOrEditButton,
    ExitButton,
}

#[derive(Clone, Copy, PartialEq, Eq, Structural, Debug)]
pub enum PopupType {
    Create,
    Edit,
}

/// Focus motion: Down from the text box returns to the previously
/// visited button if there was one, else to the exit button; Left/Right
/// swap the two buttons; Up returns to the text box.
pub open spec fn cursor_next(
    cur: CursorPosition,
    last: Option<CursorPosition>,
    direction: Key,
) -> CursorPosition {
    match cur {
        CursorPosition::TextInput => match direction {
            Key::Down => match last {
                Some(CursorPosition::CreateOrEditButton) => CursorPosition::CreateOrEditButton,
                Some(CursorPosition::ExitButton) => CursorPosition::ExitButton,
                _ => CursorPosition::ExitButton,
            },
            _ => CursorPosition::TextInput,
        },
        CursorPosition::CreateOrEditButton => match direction {
            Key::Up => CursorPosition::TextInput,
            Key::Left => CursorPosition::ExitButton,
            _ => CursorPosition::CreateOrEditButton,
        },
        CursorPosition::ExitButton => match direction {
            Key::Up => CursorPosition::TextInput,
            Key::Right => CursorPosition::CreateOrEditButton,
            _ => CursorPosition::ExitButton,
        },
    }
}

impl CursorPosition {
    pub fn next(&self, last_position: Option<CursorPosition>, direction: Key) -> (r: Self)
        ensures
            r == cursor_next(*self, last_position, direction),
    {
        match self {
            CursorPosition::TextInput => match direction {
                Key::Down => match last_position {
                    Some(CursorPosition::CreateOrEditButton) => CursorPosition::CreateOrEditButton,
                    Some(CursorPosition::ExitButton) => CursorPosition::ExitButton,
                    _ => CursorPosition::ExitButton,
                },
                _ => CursorPosition::TextInput,
            },
            CursorPosition::CreateOrEditButton => match direction {
                Key::Up => CursorPosition::TextInput,
                Key::Left => CursorPosition::ExitButton,
                _ => CursorPosition::CreateOrEditButton,
            },
            CursorPosition::ExitButton => match direction {
                Key::Up => CursorPosition::TextInput,
                Key::Right => CursorPosition::CreateOrEditButton,
                _ => CursorPosition::ExitButton,
            },
        }
    }
}

/// State of the editor/creator popup. In Edit mode an activity id is
/// always present (`wf`).
pub struct ActivityPopupState {
    pub last_cursor_position: Option<CursorPosition>,
    pub cursor_position: CursorPosition,
    pub text_input: Vec<char>,
    pub popup_type: PopupType,
    pub activity_id: Option<ActivityId>,
}

impl ActivityPopupState {
    pub open spec fn wf(&self) -> bool {
        self.popup_type == PopupType::Edit ==> self.activity_id.is_some()
    }

    /// State for editing an existing type: buffer pre-filled with its name.
    pub fn new_editor(activity_title: Vec<char>, activity_id: ActivityId) -> (r: Self)
        ensures
            r.last_cursor_position.is_none(),
            r.cursor_position == CursorPosition::TextInput,
            r.text_input == activity_title,
            r.popup_type == PopupType::Edit,
            r.activity_id == Some(activity_id),
            r.wf(),
    {
        Self {
            last_cursor_position: None,
            cursor_position: CursorPosition::TextInput,
            text_input: activity_title,
            popup_type: PopupType::Edit,
            activity_id: Some(activity_id),
        }
    }

    /// State for creating a new type: empty buffer.
    pub fn new_creator() -> (r: Self)
        ensures
            r.last_cursor_position.is_none(),
            r.cursor_position == CursorPosition::TextInput,
            r.text_input@ == Seq::<char>::empty(),
            r.popup_type == PopupType::Create,
            r.activity_id.is_none(),
            r.wf(),
    {
        let text: Vec<char> = Vec::new();
        proof {
            assert(text@ =~= Seq::<char>::empty());
        }
        Self {
            last_cursor_position: None,
            cursor_position: CursorPosition::TextInput,
            text_input: text,
            popup_type: PopupType::Create,
            activity_id: None,
        }
    }
}

/// Relies on `String`'s `FromIterator<char>`: collecting chars yields
/// the string of exactly those chars.
#[verifier::external_body]
fn string_from_chars(chars: &Vec<char>) -> (r: String)
    ensures
        r@ == chars@,
{
    chars.iter().collect()
}

/// Relies on `str::chars`: a string's chars are its view, in order.
#[verifier::external_body]
pub fn chars_of_string(s: &String) -> (r: Vec<char>)
    ensures
        r@ == s@,
{
    s.chars().collect()
}

/// How a key edits the popup without resolving it: arrows move focus
/// and remember the previous position, characters and backspace edit
/// the text buffer while it has focus, anything else changes nothing.
pub open spec fn popup_edit_step(key: Key, pre: ActivityPopupState, post: ActivityPopupState) -> bool {
    &&& post.popup_type == pre.popup_type
    &&& post.activity_id == pre.activity_id
    &&& match key {
        Key::Left | Key::Right | Key::Up | Key::Down => {
            &&& post.cursor_position == cursor_next(
                pre.cursor_position,
                pre.last_cursor_position,
                key,
            )
            &&& post.last_cursor_position == Some(pre.cursor_position)
            &&& post.text_input == pre.text_input
        },
        Key::Char(c) => {
            &&& if pre.cursor_position == CursorPosition::TextInput {
                post.text_input@ == pre.text_input@.push(c)
            } else {
                post == pre
            }
            &&& post.cursor_position == pre.cursor_position
            &&& post.last_cursor_position == pre.last_cursor_position
        },
        Key::Backspace => {
            &&& if pre.cursor_position == CursorPosition::TextInput && pre.text_input@.len() > 0 {
                post.text_input@ == pre.text_input@.drop_last()
            } else {
                post == pre
            }
            &&& post.cursor_position == pre.cursor_position
            &&& post.last_cursor_position == pre.last_cursor_position
        },
        _ => post == pre,
    }
}

impl ActivityPopup {
    /// Apply one key to the popup state; `Some` is an action for the host.
    pub fn handle_key(key: Key, state: &mut ActivityPopupState) -> (r: Option<ActivityPopupAction>)
        requires
            old(state).wf(),
        ensures
            final(state).wf(),
            final(state).popup_type == old(state).popup_type,
            final(state).activity_id == old(state).activity_id,
            match key {
                Key::Enter => {
                    &&& *final(state) == *old(state)
                    &&& match old(state).cursor_position {
                        CursorPosition::TextInput => r.is_none(),
                        CursorPosition::CreateOrEditButton => match old(state).popup_type {
                            PopupType::Create => r matches Some(
                                ActivityPopupAction::CreateActivity(s),
                            ) && s@ == old(state).text_input@,
                            PopupType::Edit => r matches Some(
                                ActivityPopupAction::EditActivity(id, s),
                            ) && Some(id) == old(state).activity_id && s@ == old(
                                state,
                            ).text_input@,
                        },
                        CursorPosition::ExitButton => r matches Some(ActivityPopupAction::Exit),
                    }
                },
                Key::Left | Key::Right | Key::Up | Key::Down => {
                    &&& r.is_none()
                    &&& final(state).cursor_position == cursor_next(
                        old(state).cursor_position,
                        old(state).last_cursor_position,
                        key,
                    )
                    &&& final(state).last_cursor_position == Some(old(state).cursor_position)
                    &&& final(state).text_input == old(state).text_input
                },
                Key::Char(c) => {
                    &&& r.is_none()
                    &&& if old(state).cursor_position == CursorPosition::TextInput {
                        final(state).text_input@ == old(state).text_input@.push(c)
                    } else {
                        *final(state) == *old(state)
                    }
                    &&& final(state).cursor_position == old(state).cursor_position
                    &&& final(state).last_cursor_position == old(state).last_cursor_position
                },
                Key::Backspace => {
                    &&& r.is_none()
                    &&& if old(state).cursor_position == CursorPosition::TextInput && old(
                        state,
                    ).text_input@.len() > 0 {
                        final(state).text_input@ == old(state).text_input@.drop_last()
                    } else {
                        *final(state) == *old(state)
                    }
                    &&& final(state).cursor_position == old(state).cursor_position
                    &&& final(state).last_cursor_position == old(state).last_cursor_position
                },
                Key::Other => r.is_none() && *final(state) == *old(state),
            },
    {
        match key {
            Key::Enter => match state.cursor_position {
                CursorPosition::TextInput => None,
                CursorPosition::CreateOrEditButton => match state.popup_type {
                    PopupType::Create => Some(
                        ActivityPopupAction::CreateActivity(string_from_chars(&state.text_input)),
                    ),
                    PopupType::Edit => Some(
                        ActivityPopupAction::EditActivity(
                            state.activity_id.unwrap(),
                            string_from_chars(&state.text_input),
                        ),
                    ),
                },
                CursorPosition::ExitButton => Some(ActivityPopupAction::Exit),
            },
            Key::Left | Key::Right | Key::Up | Key::Down => {
                let new_position = state.cursor_position.next(state.last_cursor_position, key);
                state.last_cursor_position = Some(state.cursor_position);
                state.cursor_position = new_position;
                None
            },
            Key::Char(c) => {
                if matches!(state.cursor_position, CursorPosition::TextInput) {
                    state.text_input.push(c);
                }
                None
            },
            Key::Backspace => {
                if matches!(state.cursor_position, CursorPosition::TextInput)
                    && state.text_input.len() > 0 {
                    state.text_input.pop();
                }
                None
            },
            Key::Other => None,
        }
    }
}

} // verus!
