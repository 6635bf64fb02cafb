//! Key presses as the interface sees them.
use vstd::prelude::*;

verus! {

#[derive(Clone, Copy, Debug, Eq, PartialEq, Structural)]
pub enum KeyCode {
    Char(char),
    F(u8),
    Esc,
    Tab,
    Enter,
    Backspace,
    Up,
    Down,
    Left,
    Right,
    PageUp,
    PageDown,
    Other,
}

/// A key press: the key, whether Control is held, and whether any other
/// modifier (Shift, Alt, ...) is held.
#[derive(Clone, Copy, Debug, Eq, PartialEq, Structural)]
pub struct Key {
    pub code: KeyCode,
    pub control: bool,
    pub other_modifiers: bool,
}

/// `q`, or Control-C.
pub open spec fn quits(key: Key) -> bool {
    key.code == KeyCode::Char('q') || (key.code == KeyCode::Char('c') && key.control)
}

pub fn is_quit(key: Key) -> (r: bool)
    ensures
        r == quits(key),
{
    key.code == KeyCode::Char('q') || (key.code == KeyCode::Char('c') && key.control)
}

} // verus!
