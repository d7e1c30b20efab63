//! The input events that the engine understands.

use vstd::prelude::*;

verus! {

/// A key of the keyboard, as far as the picker tells keys apart.
#[derive(Clone, Copy, Debug, PartialEq, Eq, Structural)]
pub enum Key {
    /// A key that stands for a character.
    Char(char),
    Backspace,
    Enter,
    Esc,
    Up,
    Down,
    Left,
    Right,
    /// Any other key.
    Other,
}

/// What happened to a key.
#[derive(Clone, Copy, Debug, PartialEq, Eq, Structural)]
pub enum KeyKind {
    Press,
    Repeat,
    Release,
}

/// What happened with the mouse.
#[derive(Clone, Copy, Debug, PartialEq, Eq, Structural)]
pub enum Pointer {
    /// The left button went down.
    LeftDown,
    ScrollUp,
    ScrollDown,
    /// Any other button or movement.
    Other,
}

/// One input event of the terminal.
#[derive(Clone, Copy, Debug, PartialEq, Eq, Structural)]
pub enum Event {
    /// A key event.
    Key { key: Key, kind: KeyKind },
    /// A mouse event at a terminal cell; rows and columns start at 0.
    Mouse { pointer: Pointer, row: u16, column: u16 },
    /// The terminal took a new size.
    Resize { columns: u16, rows: u16 },
    /// Any other event.
    Other,
}

/// Whether a character is a control character: one of U+0000 to U+001F or
/// U+007F to U+009F.
pub open spec fn is_control(ch: char) -> bool {
    ch as u32 <= 0x1f || 0x7f <= ch as u32 <= 0x9f
}

/// Whether a text is free of control characters.
pub open spec fn is_printable(text: Seq<char>) -> bool {
    forall|i: int| 0 <= i < text.len() ==> !is_control(#[trigger] text[i])
}

/// Tells whether a character is a control character.
pub fn char_is_control(ch: char) -> (b: bool)
    ensures
        b == is_control(ch),
{
    let code: u32 = ch as u32;
    code <= 0x1f || (0x7f <= code && code <= 0x9f)
}

} // verus!
