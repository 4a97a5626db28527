use crossterm::event::{Event, KeyCode, KeyEvent, KeyModifiers};
use daila::activity_popup::chars_of_string;
use daila::input::{key_of_event, Key};

fn key_event(code: KeyCode) -> Event {
    Event::Key(KeyEvent::new(code, KeyModifiers::NONE))
}

#[test]
fn key_events_reduce_to_plain_keys() {
    assert_eq!(key_of_event(&key_event(KeyCode::Char('f'))), Some(Key::Char('f')));
    assert_eq!(key_of_event(&key_event(KeyCode::Enter)), Some(Key::Enter));
    assert_eq!(key_of_event(&key_event(KeyCode::Backspace)), Some(Key::Backspace));
    assert_eq!(key_of_event(&key_event(KeyCode::Left)), Some(Key::Left));
    assert_eq!(key_of_event(&key_event(KeyCode::Right)), Some(Key::Right));
    assert_eq!(key_of_event(&key_event(KeyCode::Up)), Some(Key::Up));
    assert_eq!(key_of_event(&key_event(KeyCode::Down)), Some(Key::Down));
    assert_eq!(key_of_event(&key_event(KeyCode::Esc)), Some(Key::Other));
}

#[test]
fn non_key_events_are_dropped() {
    assert_eq!(key_of_event(&Event::Resize(80, 24)), None);
    assert_eq!(key_of_event(&Event::FocusGained), None);
}

#[test]
fn string_chars_round_trip() {
    assert_eq!(chars_of_string(&String::from("Run!")), vec!['R', 'u', 'n', '!']);
    assert_eq!(chars_of_string(&String::new()), Vec::<char>::new());
}
