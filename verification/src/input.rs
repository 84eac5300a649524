//! What the window tells the application, and what the application makes
//! of it.

use vstd::prelude::*;

verus! {

/// An arrow key.
#[derive(Clone, Copy, Debug, PartialEq, Eq, Structural)]
pub enum Key {
    Left,
    Right,
    Up,
    Down,
}

/// What the application reacts to.
#[derive(Clone, Copy, Debug, PartialEq, Eq, Structural)]
pub enum OozeEvent {
    WindowClose,
    KeyPress(Key),
    Nothing,
}

/// The key of a keyboard event, as far as the application tells keys
/// apart.
#[derive(Clone, Copy, Debug, PartialEq, Eq, Structural)]
pub enum KeyCode {
    Left,
    Right,
    Up,
    Down,
    Other,
}

/// An event of the window, as far as the application tells events apart:
/// the window is asked to close, a key goes down or up, or anything
/// else. A keyboard event may name no key.
#[derive(Clone, Copy, Debug, PartialEq, Eq, Structural)]
pub enum WindowInput {
    CloseRequested,
    Keyboard { pressed: bool, key: Option<KeyCode> },
    Other,
}

/// What an event of the window means to the application: a request to
/// close closes, an arrow key that goes down is a key press, and nothing
/// else means anything.
pub open spec fn spec_to_ooze_event(input: WindowInput) -> OozeEvent {
    match input {
        WindowInput::CloseRequested => OozeEvent::WindowClose,
        WindowInput::Keyboard { pressed: true, key: Some(KeyCode::Left) } => OozeEvent::KeyPress(
            Key::Left,
        ),
        WindowInput::Keyboard { pressed: true, key: Some(KeyCode::Right) } => OozeEvent::KeyPress(
            Key::Right,
        ),
        WindowInput::Keyboard { pressed: true, key: Some(KeyCode::Up) } => OozeEvent::KeyPress(
            Key::Up,
        ),
        WindowInput::Keyboard { pressed: true, key: Some(KeyCode::Down) } => OozeEvent::KeyPress(
            Key::Down,
        ),
        _ => OozeEvent::Nothing,
    }
}

/// Tells what an event of the window means to the application.
pub fn to_ooze_event(input: WindowInput) -> (event: OozeEvent)
    ensures
        event == spec_to_ooze_event(input),
{
    match input {
        WindowInput::CloseRequested => OozeEvent::WindowClose,
        WindowInput::Keyboard { pressed, key } => {
            if pressed {
                match key {
                    Some(KeyCode::Left) => OozeEvent::KeyPress(Key::Left),
                    Some(KeyCode::Right) => OozeEvent::KeyPress(Key::Right),
                    Some(KeyCode::Up) => OozeEvent::KeyPress(Key::Up),
                    Some(KeyCode::Down) => OozeEvent::KeyPress(Key::Down),
                    _ => OozeEvent::Nothing,
                }
            } else {
                OozeEvent::Nothing
            }
        },
        WindowInput::Other => OozeEvent::Nothing,
    }
}

/// Tells what the events of the window mean, one for one.
pub fn to_ooze_events(inputs: &Vec<WindowInput>) -> (events: Vec<OozeEvent>)
    ensures
        events@ == inputs@.map_values(|input: WindowInput| spec_to_ooze_event(input)),
{
    let mut events: Vec<OozeEvent> = Vec::new();
    let mut i: usize = 0;
    while i < inputs.len()
        invariant
            i <= inputs@.len(),
            events@ == inputs@.take(i as int).map_values(
                |input: WindowInput| spec_to_ooze_event(input),
            ),
        decreases inputs@.len() - i,
    {
        events.push(to_ooze_event(inputs[i]));
        proof {
            assert(inputs@.take(i + 1) =~= inputs@.take(i as int).push(inputs@[i as int]));
            assert(events@ =~= inputs@.take(i + 1).map_values(
                |input: WindowInput| spec_to_ooze_event(input),
            ));
        }
        i = i + 1;
    }
    proof {
        assert(inputs@.take(i as int) =~= inputs@);
    }
    events
}

} // verus!
