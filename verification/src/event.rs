//! Logical input events, independent of the terminal backend that
//! produces them. The thread that polls the terminal and decodes raw key
//! presses into these values lives outside the library.

use vstd::prelude::*;

verus! {

/// A logical key press.
#[derive(PartialEq, Eq, Structural, Clone, Copy, Hash, Debug)]
pub enum Key {
    Enter,
    Tab,
    Backspace,
    Escape,
    Left,
    Right,
    Up,
    Down,
    Insert,
    Delete,
    Home,
    End,
    PageUp,
    PageDown,
    F0,
    F1,
    F2,
    F3,
    F4,
    F5,
    F6,
    F7,
    F8,
    F9,
    F10,
    F11,
    F12,
    Char(char),
    Ctrl(char),
    Alt(char),
    Unknown,
}

/// A logical terminal event: a decoded key press, or a timer tick.
#[derive(PartialEq, Eq, Structural, Clone, Copy, Debug)]
pub enum TerminalEvent {
    Input(Key),
    Tick,
}

/// The function key numbered `n`.
pub open spec fn function_key(n: int) -> Key {
    if n == 0 {
        Key::F0
    } else if n == 1 {
        Key::F1
    } else if n == 2 {
        Key::F2
    } else if n == 3 {
        Key::F3
    } else if n == 4 {
        Key::F4
    } else if n == 5 {
        Key::F5
    } else if n == 6 {
        Key::F6
    } else if n == 7 {
        Key::F7
    } else if n == 8 {
        Key::F8
    } else if n == 9 {
        Key::F9
    } else if n == 10 {
        Key::F10
    } else if n == 11 {
        Key::F11
    } else {
        Key::F12
    }
}

impl Key {
    /// The function key numbered `n`; only F0 through F12 exist.
    pub fn from_function_key(n: u8) -> (k: Key)
        requires
            n <= 12,
        ensures
            k == function_key(n as int),
    {
        match n {
            0 => Key::F0,
            1 => Key::F1,
            2 => Key::F2,
            3 => Key::F3,
            4 => Key::F4,
            5 => Key::F5,
            6 => Key::F6,
            7 => Key::F7,
            8 => Key::F8,
            9 => Key::F9,
            10 => Key::F10,
            11 => Key::F11,
            _ => Key::F12,
        }
    }
}

} // verus!
