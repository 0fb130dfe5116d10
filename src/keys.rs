//! Classification of raw input events into volume key presses.
use vstd::prelude::*;

verus! {

/// Event type of key events.
pub const EV_KEY: u32 = 1;

/// Key code of the key that raises the gain (the `U` key).
pub const VOLUME_UP_KEY: u32 = 22;

/// Key code of the key that lowers the gain (the `D` key).
pub const VOLUME_DOWN_KEY: u32 = 32;

/// Event value of a key press; a release is 0 and a repeat 2.
pub const KEY_PRESSED: i32 = 1;

/// What a raw input event asks for.
#[derive(Clone, Copy, Debug, PartialEq, Eq, Structural)]
pub enum KeyAction {
    VolumeUp,
    VolumeDown,
    Other,
}

pub open spec fn classify_spec(event_type: u32, code: u32, value: i32) -> KeyAction {
    if event_type == EV_KEY && value == KEY_PRESSED && code == VOLUME_UP_KEY {
        KeyAction::VolumeUp
    } else if event_type == EV_KEY && value == KEY_PRESSED && code == VOLUME_DOWN_KEY {
        KeyAction::VolumeDown
    } else {
        KeyAction::Other
    }
}

/// Maps a raw event, given by its type, code and value, to the volume key
/// it presses. Releases, repeats, other keys and other event types are `Other`.
pub fn classify(event_type: u32, code: u32, value: i32) -> (r: KeyAction)
    ensures
        r == classify_spec(event_type, code, value),
{
    if event_type != EV_KEY || value != KEY_PRESSED {
        KeyAction::Other
    } else if code == VOLUME_UP_KEY {
        KeyAction::VolumeUp
    } else if code == VOLUME_DOWN_KEY {
        KeyAction::VolumeDown
    } else {
        KeyAction::Other
    }
}

} // verus!
