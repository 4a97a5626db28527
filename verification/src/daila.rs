//! The session state machine: the registry, the log, the active date
//! and the selector, composed with the popup overlays, driven one key
//! at a time. Persistence is signalled, never performed, here: the
//! caller saves exactly when `save_requested` is set.

use crate::activites::{activity_options, has_id, log_has, toggle_rel, ActivitiesStore, Activity,
    ActivityId, ActivityOption, ActivityType, ActivityTypesStore};
use crate::activity_popup::{chars_of_string, popup_edit_step, ActivityPopup, ActivityPopupAction,
    ActivityPopupState, CursorPosition, PopupType};
use crate::activity_selector::{moved_down, moved_left, moved_right, moved_up,
    ActivitySelectorState};
use crate::confirmation_popup::{confirm_cursor_next, ConfirmationPopup, ConfirmationPopupAction,
    ConfirmationPopupState};
use crate::date::{max_date, min_date, today_date, Date};
use crate::input::{key_of_event, Key};
use vstd::prelude::*;

verus! {

/// What a confirmation popup decides when accepted.
pub enum ConfirmationAction {
    SaveWithoutQuitting,
    DeleteActivity(ActivityId),
}

#[derive(Copy, Clone, Debug, PartialEq, Eq, Structural)]
pub enum DailaEvent {
    GotoPreviousDay,
    GotoNextDay,
    GotoToday,
    ActivityUp,
    ActivityDown,
    ActivityLeft,
    ActivityRight,
    ToggleSelectedActivity,
    SaveAndQuit,
    QuitWithoutSaving,
    CreateNewActivity,
    EditSelectedActivity,
    DeleteSelectedActivity,
}

/// The key map in the base screen.
pub open spec fn spec_event_of_key(key: Key) -> Option<DailaEvent> {
    match key {
        Key::Char('f') => Some(DailaEvent::GotoNextDay),
        Key::Char('F') => Some(DailaEvent::GotoPreviousDay),
        Key::Char('r') => Some(DailaEvent::GotoToday),
        Key::Right => Some(DailaEvent::ActivityRight),
        Key::Left => Some(DailaEvent::ActivityLeft),
        Key::Up => Some(DailaEvent::ActivityUp),
        Key::Down => Some(DailaEvent::ActivityDown),
        Key::Char('s') => Some(DailaEvent::SaveAndQuit),
        Key::Char('q') => Some(DailaEvent::QuitWithoutSaving),
        Key::Char('c') => Some(DailaEvent::CreateNewActivity),
        Key::Char('e') => Some(DailaEvent::EditSelectedActivity),
        Key::Char('d') => Some(DailaEvent::DeleteSelectedActivity),
        Key::Char('a') => Some(DailaEvent::ToggleSelectedActivity),
        _ => None,
    }
}

impl DailaEvent {
    pub fn from_key(key: Key) -> (r: Option<DailaEvent>)
        ensures
            r == spec_event_of_key(key),
    {
        match key {
            Key::Char('f') => Some(DailaEvent::GotoNextDay),
            Key::Char('F') => Some(DailaEvent::GotoPreviousDay),
            Key::Char('r') => Some(DailaEvent::GotoToday),
            Key::Right => Some(DailaEvent::ActivityRight),
            Key::Left => Some(DailaEvent::ActivityLeft),
            Key::Up => Some(DailaEvent::ActivityUp),
            Key::Down => Some(DailaEvent::ActivityDown),
            Key::Char('s') => Some(DailaEvent::SaveAndQuit),
            Key::Char('q') => Some(DailaEvent::QuitWithoutSaving),
            Key::Char('c') => Some(DailaEvent::CreateNewActivity),
            Key::Char('e') => Some(DailaEvent::EditSelectedActivity),
            Key::Char('d') => Some(DailaEvent::DeleteSelectedActivity),
            Key::Char('a') => Some(DailaEvent::ToggleSelectedActivity),
            _ => None,
        }
    }

    /// The key bound to this event in the base screen.
    pub open spec fn spec_char(self) -> char {
        match self {
            DailaEvent::GotoNextDay => 'f',
            DailaEvent::GotoPreviousDay => 'F',
            DailaEvent::GotoToday => 'r',
            DailaEvent::ToggleSelectedActivity => 'a',
            DailaEvent::SaveAndQuit => 's',
            DailaEvent::QuitWithoutSaving => 'q',
            DailaEvent::CreateNewActivity => 'c',
            DailaEvent::EditSelectedActivity => 'e',
            DailaEvent::DeleteSelectedActivity => 'd',
            _ => '_',
        }
    }

    pub fn to_char(&self) -> (r: char)
        ensures
            r == self.spec_char(),
    {
        match self {
            DailaEvent::GotoNextDay => 'f',
            DailaEvent::GotoPreviousDay => 'F',
            DailaEvent::GotoToday => 'r',
            DailaEvent::ToggleSelectedActivity => 'a',
            DailaEvent::SaveAndQuit => 's',
            DailaEvent::QuitWithoutSaving => 'q',
            DailaEvent::CreateNewActivity => 'c',
            DailaEvent::EditSelectedActivity => 'e',
            DailaEvent::DeleteSelectedActivity => 'd',
            _ => '_',
        }
    }

    pub open spec fn spec_description(self) -> Seq<char> {
        match self {
            DailaEvent::GotoNextDay => "next day"@,
            DailaEvent::GotoPreviousDay => "previous day"@,
            DailaEvent::GotoToday => "today"@,
            DailaEvent::ToggleSelectedActivity => "toggle selected activity"@,
            DailaEvent::SaveAndQuit => "save and quit"@,
            DailaEvent::QuitWithoutSaving => "quit without saving"@,
            DailaEvent::CreateNewActivity => "add new activity type"@,
            DailaEvent::EditSelectedActivity => "edit the selected activity type"@,
            DailaEvent::DeleteSelectedActivity => "delete the selected activity type"@,
            _ => "unknown"@,
        }
    }

    pub fn to_description(&self) -> (r: String)
        ensures
            r@ == self.spec_description(),
    {
        let description: &str = match self {
            DailaEvent::GotoNextDay => "next day",
            DailaEvent::GotoPreviousDay => "previous day",
            DailaEvent::GotoToday => "today",
            DailaEvent::ToggleSelectedActivity => "toggle selected activity",
            DailaEvent::SaveAndQuit => "save and quit",
            DailaEvent::QuitWithoutSaving => "quit without saving",
            DailaEvent::CreateNewActivity => "add new activity type",
            DailaEvent::EditSelectedActivity => "edit the selected activity type",
            DailaEvent::DeleteSelectedActivity => "delete the selected activity type",
            _ => "unknown",
        };
        String::from_str(description)
    }

    /// The events listed on the help panel, in display order.
    pub fn instructions() -> (r: Vec<DailaEvent>)
        ensures
            r@ == seq![
                DailaEvent::GotoPreviousDay,
                DailaEvent::GotoNextDay,
                DailaEvent::GotoToday,
                DailaEvent::ToggleSelectedActivity,
                DailaEvent::CreateNewActivity,
                DailaEvent::EditSelectedActivity,
                DailaEvent::DeleteSelectedActivity,
                DailaEvent::SaveAndQuit,
                DailaEvent::QuitWithoutSaving,
            ],
    {
        let mut r: Vec<DailaEvent> = Vec::new();
        r.push(DailaEvent::GotoPreviousDay);
        r.push(DailaEvent::GotoNextDay);
        r.push(DailaEvent::GotoToday);
        r.push(DailaEvent::ToggleSelectedActivity);
        r.push(DailaEvent::CreateNewActivity);
        r.push(DailaEvent::EditSelectedActivity);
        r.push(DailaEvent::DeleteSelectedActivity);
        r.push(DailaEvent::SaveAndQuit);
        r.push(DailaEvent::QuitWithoutSaving);
        proof {
            assert(r@ =~= seq![
                DailaEvent::GotoPreviousDay,
                DailaEvent::GotoNextDay,
                DailaEvent::GotoToday,
                DailaEvent::ToggleSelectedActivity,
                DailaEvent::CreateNewActivity,
                DailaEvent::EditSelectedActivity,
                DailaEvent::DeleteSelectedActivity,
                DailaEvent::SaveAndQuit,
                DailaEvent::QuitWithoutSaving,
            ]);
        }
        r
    }
}

/// Which screen owns the keyboard.
pub enum DailaState {
    Default,
    ActivityPopup { state: ActivityPopupState },
    ConfirmationPopup { action: ConfirmationAction, state: ConfirmationPopupState },
}

/// The whole session.
pub struct Daila {
    pub activity_types: ActivityTypesStore,
    pub activities: ActivitiesStore,
    /// Date displayed in the activity selector.
    pub active_date: Date,
    pub activity_selector_state: ActivitySelectorState,
    pub running: bool,
    pub state: DailaState,
    /// Clear the whole terminal before the next frame.
    pub refresh: bool,
    /// Set exactly when the user chose save-and-quit; the caller then
    /// writes both stores out.
    pub save_requested: bool,
}

impl Daila {
    pub open spec fn wf(&self) -> bool {
        &&& self.activity_types.wf()
        &&& self.activities.wf()
        &&& self.active_date.is_valid()
        &&& self.activity_selector_state.wf()
        &&& self.activity_selector_state.activity_count == self.activity_types@.len()
        &&& match self.state {
            DailaState::ActivityPopup { state } => state.wf(),
            _ => true,
        }
    }

    /// A fresh session over loaded stores, on today's date.
    pub fn new(activity_types: ActivityTypesStore, activities: ActivitiesStore) -> (r: Self)
        requires
            activity_types.wf(),
            activities.wf(),
        ensures
            r.wf(),
            r.activity_types == activity_types,
            r.activities == activities,
            r.running == false,
            r.refresh == false,
            r.save_requested == false,
            r.state matches DailaState::Default,
            r.activity_selector_state == ActivitySelectorState::spec_new(activity_types@.len() as usize),
    {
        let count = activity_types.len();
        Self {
            activity_types,
            activities,
            active_date: today_date(),
            activity_selector_state: ActivitySelectorState::new(count),
            running: false,
            state: DailaState::Default,
            refresh: false,
            save_requested: false,
        }
    }

    /// The selector entries for the active date.
    pub fn activity_selector_options(&self) -> (r: Vec<ActivityOption>)
        requires
            self.wf(),
        ensures
            r@.len() == self.activity_types@.len(),
            forall|i: int|
                0 <= i < r@.len() ==> {
                    &&& (#[trigger] r@[i]).activity_type == self.activity_types@[i]
                    &&& r@[i].completed == log_has(
                        self.activities@,
                        (Activity {
                            activity_id: self.activity_types@[i].id,
                            date: self.active_date,
                        }),
                    )
                },
    {
        activity_options(&self.activity_types, &self.activities, self.active_date)
    }

    /// The option under the cursor, if any.
    pub fn selected_activity_option(&self) -> (r: Option<ActivityOption>)
        requires
            self.wf(),
        ensures
            r.is_some() == self.activity_selector_state.selected_index.is_some(),
            r.is_some() ==> ({
                let i = self.activity_selector_state.selected_index.unwrap();
                &&& r.unwrap().activity_type == self.activity_types@[i as int]
                &&& r.unwrap().completed == log_has(
                    self.activities@,
                    (Activity {
                        activity_id: self.activity_types@[i as int].id,
                        date: self.active_date,
                    }),
                )
            }),
    {
        match self.activity_selector_state.selected_index() {
            Some(index) => {
                let options = self.activity_selector_options();
                Some(options[index].clone())
            },
            None => None,
        }
    }

    /// The records feeding the heat-map: every record of the selected
    /// type, or nothing when there is no selection.
    pub fn heatmap_values(&self) -> (r: Vec<Activity>)
        requires
            self.wf(),
        ensures
            match self.activity_selector_state.selected_index {
                None => r@ == Seq::<Activity>::empty(),
                Some(i) => r@ == crate::activites::seq_where(
                    crate::activites::all_records(self.activities@),
                    |e: Activity| e.activity_id == self.activity_types@[i as int].id,
                ),
            },
    {
        match self.activity_selector_state.selected_index() {
            None => {
                let r: Vec<Activity> = Vec::new();
                proof {
                    assert(r@ =~= Seq::<Activity>::empty());
                }
                r
            },
            Some(index) => {
                let activity_types = self.activity_types.activity_types();
                let selected_activity = &activity_types[index];
                self.activities.activities_with_type(selected_activity)
            },
        }
    }
}

/// A type was added under the smallest unused id, carrying `name`;
/// everything already registered is kept.
pub open spec fn create_rel(pre: Seq<ActivityType>, post: Seq<ActivityType>, name: Seq<char>) -> bool {
    &&& post.len() == pre.len() + 1
    &&& exists|t: ActivityType|
        #![auto]
        {
            &&& post.contains(t)
            &&& t.name@ == name
            &&& !has_id(pre, t.id.0)
            &&& forall|j: u32| j < t.id.0 ==> has_id(pre, j)
            &&& forall|t2: ActivityType| post.contains(t2) ==> t2 == t || pre.contains(t2)
        }
    &&& forall|t2: ActivityType| pre.contains(t2) ==> post.contains(t2)
}

/// The type under `id` (if any) now carries `name`; nothing else moved.
pub open spec fn rename_rel(
    pre: Seq<ActivityType>,
    post: Seq<ActivityType>,
    id: ActivityId,
    name: Seq<char>,
) -> bool {
    &&& post.len() == pre.len()
    &&& forall|i: int|
        0 <= i < pre.len() ==> {
            &&& (#[trigger] post[i]).id == pre[i].id
            &&& if pre[i].id == id {
                post[i].name@ == name
            } else {
                post[i] == pre[i]
            }
        }
}

/// The type under `id` is gone; every other type is kept.
pub open spec fn delete_rel(pre: Seq<ActivityType>, post: Seq<ActivityType>, id: ActivityId) -> bool {
    &&& !has_id(post, id.0)
    &&& forall|t: ActivityType| #![auto] post.contains(t) <==> pre.contains(t) && t.id != id
}

/// One key applied on the base screen, after the key map gave `ev`.
pub open spec fn step_default(pre: Daila, ev: DailaEvent, post: Daila) -> bool {
    match ev {
        DailaEvent::GotoPreviousDay => if pre.active_date == min_date() {
            post == pre
        } else {
            &&& post == (Daila { active_date: post.active_date, ..pre })
            &&& post.active_date.is_valid()
            &&& post.active_date.day_index() == pre.active_date.day_index() - 1
        },
        DailaEvent::GotoNextDay => if pre.active_date == max_date() {
            post == pre
        } else {
            &&& post == (Daila { active_date: post.active_date, ..pre })
            &&& post.active_date.is_valid()
            &&& post.active_date.day_index() == pre.active_date.day_index() + 1
        },
        DailaEvent::GotoToday => {
            &&& post == (Daila { active_date: post.active_date, ..pre })
            &&& post.active_date.is_valid()
        },
        DailaEvent::ActivityLeft => post == (
            Daila { activity_selector_state: moved_left(pre.activity_selector_state), ..pre }
        ),
        DailaEvent::ActivityRight => post == (
            Daila { activity_selector_state: moved_right(pre.activity_selector_state), ..pre }
        ),
        DailaEvent::ActivityUp => post == (
            Daila { activity_selector_state: moved_up(pre.activity_selector_state), ..pre }
        ),
        DailaEvent::ActivityDown => post == (
            Daila { activity_selector_state: moved_down(pre.activity_selector_state), ..pre }
        ),
        DailaEvent::ToggleSelectedActivity => match pre.activity_selector_state.selected_index {
            None => post == pre,
            Some(i) => {
                &&& post == (Daila { activities: post.activities, ..pre })
                &&& toggle_rel(
                    pre.activities@,
                    post.activities@,
                    pre.activity_types@[i as int].id,
                    pre.active_date,
                )
            },
        },
        DailaEvent::SaveAndQuit => post == (
            Daila { running: false, save_requested: true, ..pre }
        ),
        DailaEvent::QuitWithoutSaving => {
            &&& post == (Daila { state: post.state, refresh: true, ..pre })
            &&& post.state matches DailaState::ConfirmationPopup {
                action: ConfirmationAction::SaveWithoutQuitting,
                state: cs,
            }
            &&& cs.cursor_position == crate::confirmation_popup::CursorPosition::LeftButton
            &&& cs.prompt@ == "Quit without saving?"@
        },
        DailaEvent::CreateNewActivity => {
            &&& post == (Daila { state: post.state, refresh: true, ..pre })
            &&& post.state matches DailaState::ActivityPopup { state: ps }
            &&& ps.last_cursor_position.is_none()
            &&& ps.cursor_position == CursorPosition::TextInput
            &&& ps.text_input@ == Seq::<char>::empty()
            &&& ps.popup_type == PopupType::Create
            &&& ps.activity_id.is_none()
        },
        DailaEvent::EditSelectedActivity => match pre.activity_selector_state.selected_index {
            None => post == (Daila { refresh: true, ..pre }),
            Some(i) => {
                &&& post == (Daila { state: post.state, refresh: true, ..pre })
                &&& post.state matches DailaState::ActivityPopup { state: ps }
                &&& ps.last_cursor_position.is_none()
                &&& ps.cursor_position == CursorPosition::TextInput
                &&& ps.text_input@ == pre.activity_types@[i as int].name@
                &&& ps.popup_type == PopupType::Edit
                &&& ps.activity_id == Some(pre.activity_types@[i as int].id)
            },
        },
        DailaEvent::DeleteSelectedActivity => match pre.activity_selector_state.selected_index {
            None => post == (Daila { refresh: true, ..pre }),
            Some(i) => {
                &&& post == (Daila { state: post.state, refresh: true, ..pre })
                &&& post.state matches DailaState::ConfirmationPopup {
                    action: ConfirmationAction::DeleteActivity(id),
                    state: cs,
                }
                &&& id == pre.activity_types@[i as int].id
                &&& cs.cursor_position == crate::confirmation_popup::CursorPosition::LeftButton
                &&& cs.prompt@ == "Confirm deletion of: "@ + pre.activity_types@[i as int].name@
            },
        },
    }
}

/// One key applied while the editor/creator popup is open.
pub open spec fn step_activity_popup(
    pre: Daila,
    ps: ActivityPopupState,
    key: Key,
    post: Daila,
    r: Option<()>,
) -> bool {
    match key {
        Key::Enter => match ps.cursor_position {
            CursorPosition::TextInput => r.is_none() && post == pre,
            CursorPosition::CreateOrEditButton => {
                &&& r == Some(())
                &&& match ps.popup_type {
                    PopupType::Create => {
                        &&& post.state matches DailaState::Default
                        &&& post.refresh == true
                        &&& post.activities == pre.activities
                        &&& post.active_date == pre.active_date
                        &&& post.running == pre.running
                        &&& post.save_requested == pre.save_requested
                        &&& if pre.activity_types@.len() <= u32::MAX {
                            &&& create_rel(
                                pre.activity_types@,
                                post.activity_types@,
                                ps.text_input@,
                            )
                            &&& post.activity_selector_state
                                == ActivitySelectorState::spec_new(
                                (pre.activity_types@.len() + 1) as usize,
                            )
                        } else {
                            &&& post.activity_types == pre.activity_types
                            &&& post.activity_selector_state == pre.activity_selector_state
                        }
                    },
                    PopupType::Edit => {
                        &&& post == (
                            Daila {
                                state: post.state,
                                refresh: true,
                                activity_types: post.activity_types,
                                ..pre
                            }
                        )
                        &&& post.state matches DailaState::Default
                        &&& rename_rel(
                            pre.activity_types@,
                            post.activity_types@,
                            ps.activity_id.unwrap(),
                            ps.text_input@,
                        )
                    },
                }
            },
            CursorPosition::ExitButton => {
                &&& r == Some(())
                &&& post == (Daila { state: post.state, refresh: true, ..pre })
                &&& post.state matches DailaState::Default
            },
        },
        _ => {
            &&& r.is_none()
            &&& post == (Daila { state: post.state, ..pre })
            &&& post.state matches DailaState::ActivityPopup { state: ps2 }
            &&& popup_edit_step(key, ps, ps2)
        },
    }
}

/// One key applied while a confirmation popup is open.
pub open spec fn step_confirmation(
    pre: Daila,
    act: ConfirmationAction,
    cs: ConfirmationPopupState,
    key: Key,
    post: Daila,
    r: Option<()>,
) -> bool {
    match key {
        Key::Left | Key::Right => {
            &&& r.is_none()
            &&& post == (Daila { state: post.state, ..pre })
            &&& post.state matches DailaState::ConfirmationPopup { action: act2, state: cs2 }
            &&& act2 == act
            &&& cs2.cursor_position == confirm_cursor_next(cs.cursor_position, key)
            &&& cs2.prompt == cs.prompt
        },
        Key::Enter => {
            &&& r == Some(())
            &&& match cs.cursor_position {
                crate::confirmation_popup::CursorPosition::LeftButton => {
                    &&& post == (Daila { state: post.state, ..pre })
                    &&& post.state matches DailaState::Default
                },
                crate::confirmation_popup::CursorPosition::RightButton => match act {
                    ConfirmationAction::SaveWithoutQuitting => {
                        &&& post == (Daila { state: post.state, running: false, ..pre })
                        &&& post.state matches DailaState::Default
                    },
                    ConfirmationAction::DeleteActivity(id) => {
                        &&& post.state matches DailaState::Default
                        &&& post.activities == pre.activities
                        &&& post.active_date == pre.active_date
                        &&& post.running == pre.running
                        &&& post.save_requested == pre.save_requested
                        &&& post.refresh == pre.refresh
                        &&& delete_rel(pre.activity_types@, post.activity_types@, id)
                        &&& post.activity_selector_state == ActivitySelectorState::spec_new(
                            post.activity_types@.len() as usize,
                        )
                    },
                },
            }
        },
        _ => r.is_none() && post == pre,
    }
}

/// The whole key-step relation of the session.
pub open spec fn step(pre: Daila, key: Key, post: Daila, r: Option<()>) -> bool {
    match pre.state {
        DailaState::Default => match spec_event_of_key(key) {
            None => r.is_none() && post == pre,
            Some(ev) => r == Some(()) && step_default(pre, ev, post),
        },
        DailaState::ActivityPopup { state } => step_activity_popup(pre, state, key, post, r),
        DailaState::ConfirmationPopup { action, state } => step_confirmation(
            pre,
            action,
            state,
            key,
            post,
            r,
        ),
    }
}

impl Daila {
    /// Apply one key to the session. Persistence is only ever requested
    /// on save-and-quit, and then with the stores untouched.
    #[verifier::rlimit(50)]
    pub fn handle_key(&mut self, key: Key) -> (r: Option<()>)
        requires
            old(self).wf(),
        ensures
            final(self).wf(),
            step(*old(self), key, *final(self), r),
            final(self).save_requested == (old(self).save_requested
                || (old(self).state matches DailaState::Default
                    && spec_event_of_key(key) == Some(DailaEvent::SaveAndQuit))),
            final(self).save_requested != old(self).save_requested
                ==> (final(self).activity_types@ == old(self).activity_types@
                    && final(self).activities@ == old(self).activities@),
    {
        let mut st = DailaState::Default;
        core::mem::swap(&mut st, &mut self.state);
        match st {
            DailaState::Default => {
                let ev = match DailaEvent::from_key(key) {
                    Some(e) => e,
                    None => {
                        return None;
                    },
                };
                match ev {
                    DailaEvent::QuitWithoutSaving => {
                        self.refresh = true;
                        self.state = DailaState::ConfirmationPopup {
                            action: ConfirmationAction::SaveWithoutQuitting,
                            state: ConfirmationPopupState::new(
                                String::from_str("Quit without saving?"),
                            ),
                        };
                    },
                    DailaEvent::SaveAndQuit => {
                        self.running = false;
                        self.save_requested = true;
                    },
                    DailaEvent::ToggleSelectedActivity => {
                        match self.selected_activity_option() {
                            Some(option) => {
                                let id = option.activity_id();
                                let date = self.active_date;
                                self.activities.toggle(id, date);
                            },
                            None => {},
                        }
                    },
                    DailaEvent::CreateNewActivity => {
                        self.refresh = true;
                        self.state = DailaState::ActivityPopup {
                            state: ActivityPopupState::new_creator(),
                        };
                    },
                    DailaEvent::EditSelectedActivity => {
                        self.refresh = true;
                        match self.selected_activity_option() {
                            Some(option) => {
                                let title = chars_of_string(&option.activity_type.name);
                                let id = option.activity_id();
                                self.state = DailaState::ActivityPopup {
                                    state: ActivityPopupState::new_editor(title, id),
                                };
                            },
                            None => {},
                        }
                    },
                    DailaEvent::DeleteSelectedActivity => {
                        self.refresh = true;
                        match self.selected_activity_option() {
                            Some(option) => {
                                let mut prompt = String::from_str("Confirm deletion of: ");
                                prompt.append(option.activity_type.name.as_str());
                                let id = option.activity_id();
                                self.state = DailaState::ConfirmationPopup {
                                    action: ConfirmationAction::DeleteActivity(id),
                                    state: ConfirmationPopupState::new(prompt),
                                };
                            },
                            None => {},
                        }
                    },
                    DailaEvent::GotoPreviousDay => {
                        match self.active_date.pred() {
                            Some(d) => {
                                self.active_date = d;
                            },
                            None => {},
                        }
                    },
                    DailaEvent::GotoNextDay => {
                        match self.active_date.succ() {
                            Some(d) => {
                                self.active_date = d;
                            },
                            None => {},
                        }
                    },
                    DailaEvent::GotoToday => {
                        self.active_date = today_date();
                    },
                    DailaEvent::ActivityLeft => self.activity_selector_state.select_left(),
                    DailaEvent::ActivityRight => self.activity_selector_state.select_right(),
                    DailaEvent::ActivityUp => self.activity_selector_state.select_up(),
                    DailaEvent::ActivityDown => self.activity_selector_state.select_down(),
                }
                Some(())
            },
            DailaState::ActivityPopup { state: mut popup_state } => {
                let action = ActivityPopup::handle_key(key, &mut popup_state);
                match action {
                    None => {
                        self.state = DailaState::ActivityPopup { state: popup_state };
                        None
                    },
                    Some(ActivityPopupAction::Exit) => {
                        self.refresh = true;
                        Some(())
                    },
                    Some(ActivityPopupAction::CreateActivity(title)) => {
                        self.refresh = true;
                        let ghost gname = title;
                        if self.activity_types.len() as u64 <= u32::MAX as u64 {
                            let new_id = self.activity_types.create_new_activity(title);
                            self.activity_selector_state = ActivitySelectorState::new(
                                self.activity_types.len(),
                            );
                            proof {
                                assert(create_rel(
                                    old(self).activity_types@,
                                    self.activity_types@,
                                    popup_state.text_input@,
                                )) by {
                                    assert(self.activity_types@.contains(
                                        (ActivityType { id: new_id, name: gname }),
                                    ));
                                }
                            }
                        }
                        Some(())
                    },
                    Some(ActivityPopupAction::EditActivity(id, title)) => {
                        self.refresh = true;
                        self.activity_types.update_activity(id, title);
                        Some(())
                    },
                }
            },
            DailaState::ConfirmationPopup { action, state: mut popup_state } => {
                let popup_action = ConfirmationPopup::handle_key(key, &mut popup_state);
                match popup_action {
                    None => {
                        self.state = DailaState::ConfirmationPopup { action, state: popup_state };
                        None
                    },
                    Some(ConfirmationPopupAction::Accept) => {
                        match action {
                            ConfirmationAction::SaveWithoutQuitting => {
                                self.running = false;
                            },
                            ConfirmationAction::DeleteActivity(id) => {
                                self.activity_types.delete_activity_type(id);
                                self.activity_selector_state = ActivitySelectorState::new(
                                    self.activity_types.len(),
                                );
                            },
                        }
                        Some(())
                    },
                    Some(ConfirmationPopupAction::Decline) => Some(()),
                }
            },
        }
    }

    /// Reduce a terminal event to a key and apply it.
    pub fn handle_event(&mut self, event: &crossterm::event::Event) -> (r: Option<()>)
        requires
            old(self).wf(),
        ensures
            final(self).wf(),
            !old(self).save_requested && final(self).save_requested
                ==> (final(self).running == false
                    && final(self).activity_types@ == old(self).activity_types@
                    && final(self).activities@ == old(self).activities@),
    {
        match key_of_event(event) {
            Some(key) => self.handle_key(key),
            None => None,
        }
    }
}

} // verus!
