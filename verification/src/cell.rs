//! The cells of the buffer: one character, how it has been typed, and whether it is underlined.
use vstd::prelude::*;

verus! {

/// The key that separates words.
pub const SPACE_CHAR: char = ' ';

/// The key that takes the last keystroke back.
pub const BACKSPACE_CHAR: char = '\u{8}';

/// How a cell has been typed so far.
#[derive(PartialEq, Eq, Debug, Clone, Copy, Structural)]
pub enum CharColor {
    /// Not typed yet, or taken back.
    Gray,
    /// Typed as the text has it.
    White,
    /// Another character was typed in its place; the cell keeps the character of the text.
    Red,
    /// A character typed past the end of a word. Such a cell is put into the buffer by the
    /// keystroke and leaves it again when the keystroke is taken back.
    TransparentRed,
}

/// One cell of the buffer.
#[derive(PartialEq, Eq, Debug, Clone, Copy, Structural)]
pub struct Character {
    pub value: char,
    pub color: CharColor,
    pub underlined: bool,
}

impl Character {
    /// The cell that a character of the text starts as.
    pub open spec fn spec_pending(value: char) -> Character {
        Character { value, color: CharColor::Gray, underlined: false }
    }

    /// The cell that holds a character typed past the end of a word.
    pub open spec fn spec_extra(value: char) -> Character {
        Character { value, color: CharColor::TransparentRed, underlined: false }
    }

    /// This cell in another colour.
    pub open spec fn painted(self, color: CharColor) -> Character {
        Character { value: self.value, color, underlined: self.underlined }
    }

    /// This cell with the underline set to `underlined`.
    pub open spec fn marked(self, underlined: bool) -> Character {
        Character { value: self.value, color: self.color, underlined }
    }

    /// Whether this cell separates two words.
    pub open spec fn is_space(self) -> bool {
        self.value == SPACE_CHAR
    }

    /// Whether this cell holds a character typed past the end of a word.
    pub open spec fn is_extra(self) -> bool {
        self.color == CharColor::TransparentRed
    }

    #[verifier::when_used_as_spec(spec_pending)]
    pub fn pending(value: char) -> (cell: Character)
        ensures
            cell == Character::spec_pending(value),
    {
        Character { value, color: CharColor::Gray, underlined: false }
    }

    #[verifier::when_used_as_spec(spec_extra)]
    pub fn extra(value: char) -> (cell: Character)
        ensures
            cell == Character::spec_extra(value),
    {
        Character { value, color: CharColor::TransparentRed, underlined: false }
    }
}

} // verus!
