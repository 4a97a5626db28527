//! Keyboard input as plain values. A terminal event is reduced to a
//! `Key` once, at the boundary; everything downstream works on `Key`.

use vstd::prelude::*;

verus! {

/// The keys the session reacts to; anything else is `Other`.
#[derive(Clone, Copy, PartialEq, Eq, Structural, Debug)]
pub enum Key {
    Left,
    Right,
    Up,
    Down,
    Enter,
    Backspace,
    Char(char),
    Other,
}

/// Declares crossterm's `Event` so that it may appear in signatures;
/// its values stay opaque and are only handed to `key_of_event`.
#[verifier::external_type_specification]
#[verifier::external_body]
pub struct ExEvent(crossterm::event::Event);

/// Relies on crossterm's `Event`: picks the key code out of a key event
/// and hands it over as a plain value; `None` for non-key events.
#[verifier::external_body]
pub fn key_of_event(event: &crossterm::event::Event) -> (r: Option<Key>) {
    match event {
        crossterm::event::Event::Key(key_event) => Some(
            match key_event.code {
                crossterm::event::KeyCode::Left => Key::Left,
                crossterm::event::KeyCode::Right => Key::Right,
                crossterm::event::KeyCode::Up => Key::Up,
                crossterm::event::KeyCode::Down => Key::Down,
                crossterm::event::KeyCode::Enter => Key::Enter,
                crossterm::event::KeyCode::Backspace => Key::Backspace,
                crossterm::event::KeyCode::Char(c) => Key::Char(c),
                _ => Key::Other,
            },
        ),
        _ => None,
    }
}

} // verus!
