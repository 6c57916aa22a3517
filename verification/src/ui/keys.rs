//! Keyboard events as the screens see them.

use vstd::prelude::*;

verus! {

/// The key that was pressed.
#[derive(Debug, Clone, Copy, PartialEq, Eq, Structural, Hash)]
pub enum KeyCode {
    Backspace,
    Enter,
    Left,
    Right,
    Up,
    Down,
    Home,
    End,
    PageUp,
    PageDown,
    Tab,
    BackTab,
    Delete,
    Insert,
    /// A function key, `F(1)` for F1.
    F(u8),
    Char(char),
    Esc,
    Null,
}

/// A key press with the state of the Control modifier.
#[derive(Debug, Clone, Copy, PartialEq, Eq, Structural, Hash)]
pub struct KeyEvent {
    pub code: KeyCode,
    pub ctrl: bool,
}

impl KeyEvent {
    /// A key pressed without Control.
    pub fn new(code: KeyCode) -> (k: KeyEvent)
        ensures
            k.code == code,
            !k.ctrl,
    {
        KeyEvent { code, ctrl: false }
    }

    /// A key pressed together with Control.
    pub fn with_ctrl(code: KeyCode) -> (k: KeyEvent)
        ensures
            k.code == code,
            k.ctrl,
    {
        KeyEvent { code, ctrl: true }
    }
}

} // verus!
