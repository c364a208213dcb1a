use vstd::prelude::*;

verus! {

/// A key press, as far as the game tells keys apart: the four arrow keys,
/// the keys that give a character, and all the others.
#[derive(Clone, Copy, PartialEq, Eq, Debug, Structural)]
pub enum KeyCode {
    Up,
    Down,
    Left,
    Right,
    Char(char),
    Other,
}

} // verus!
