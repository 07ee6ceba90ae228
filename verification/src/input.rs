//! The decisions of the interactive viewer: which command an input event
//! stands for.

use vstd::prelude::*;

verus! {

/// The keys that the viewer tells apart.
#[derive(Clone, Copy, Debug, PartialEq, Eq, Structural)]
pub enum Key {
    Escape,
    E,
    Q,
    A,
    D,
    W,
    S,
    Other,
}

/// An event of the window, reduced to what the viewer reads of it.
#[derive(Clone, Copy, Debug, PartialEq, Eq, Structural)]
pub enum InputEvent {
    /// The window was asked to close.
    Quit,
    /// A key went down; `repeat` is set when the key is being held.
    KeyDown { key: Key, repeat: bool },
    /// Anything else.
    Other,
}

/// What the viewer does in answer to an event.
#[derive(Clone, Copy, Debug, PartialEq, Eq, Structural)]
pub enum Command {
    Quit,
    ZoomIn,
    ZoomOut,
    PanLeft,
    PanRight,
    PanUp,
    PanDown,
    Ignore,
}

/// The command bound to a key that was pressed afresh.
pub open spec fn binding_of(key: Key) -> Command {
    match key {
        Key::Escape => Command::Quit,
        Key::E => Command::ZoomIn,
        Key::Q => Command::ZoomOut,
        Key::A => Command::PanLeft,
        Key::D => Command::PanRight,
        Key::W => Command::PanUp,
        Key::S => Command::PanDown,
        Key::Other => Command::Ignore,
    }
}

/// The command for an event: closing the window and the escape key quit,
/// held or not; every other key acts once per press, so its repeats are
/// ignored; no other event does anything.
pub open spec fn command_of(event: InputEvent) -> Command {
    match event {
        InputEvent::Quit => Command::Quit,
        InputEvent::KeyDown { key, repeat } => if key == Key::Escape || !repeat {
            binding_of(key)
        } else {
            Command::Ignore
        },
        InputEvent::Other => Command::Ignore,
    }
}

/// Decides what to do in answer to `event`.
pub fn command_for(event: InputEvent) -> (command: Command)
    ensures
        command == command_of(event),
{
    match event {
        InputEvent::Quit => Command::Quit,
        InputEvent::KeyDown { key: Key::Escape, .. } => Command::Quit,
        InputEvent::KeyDown { key: Key::E, repeat: false } => Command::ZoomIn,
        InputEvent::KeyDown { key: Key::Q, repeat: false } => Command::ZoomOut,
        InputEvent::KeyDown { key: Key::A, repeat: false } => Command::PanLeft,
        InputEvent::KeyDown { key: Key::D, repeat: false } => Command::PanRight,
        InputEvent::KeyDown { key: Key::W, repeat: false } => Command::PanUp,
        InputEvent::KeyDown { key: Key::S, repeat: false } => Command::PanDown,
        _ => Command::Ignore,
    }
}

} // verus!
