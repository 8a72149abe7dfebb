//! Input events as the application sees them.
use vstd::prelude::*;

verus! {

/// A key of the keyboard.
#[derive(Clone, Copy, Debug, PartialEq, Eq, Structural)]
pub enum Key {
    /// A digit key, by its value.
    Digit(u8),
    /// A letter key, as a lower-case letter.
    Letter(char),
    /// A function key, counted from zero for F1.
    Function(u8),
    Up,
    Down,
    Left,
    Right,
    Space,
    Escape,
    Other,
}

} // verus!
