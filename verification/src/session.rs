//! The typing session as a mathematical value, and what each keystroke makes of it.
//!
//! A word is a run of cells without a space; a space is a cell of its own. The three kinds of
//! keystroke are the backspace, the space, and every other character.
use vstd::prelude::*;
use crate::cell::{CharColor, Character, BACKSPACE_CHAR, SPACE_CHAR};

verus! {

/// Where the run of cells without a space that ends just before `end` begins: `end` itself where
/// the cell before it is a space, 0 where no space comes before `end`.
pub open spec fn word_start(cells: Seq<Character>, end: int) -> int
    decreases end,
{
    if end <= 0 {
        0
    } else if cells[end - 1].is_space() {
        end
    } else {
        word_start(cells, end - 1)
    }
}

/// The index of the first space at or after `from`; the length of `cells` where there is none.
pub open spec fn next_space(cells: Seq<Character>, from: int) -> int
    decreases cells.len() - from,
{
    if from >= cells.len() {
        cells.len() as int
    } else if cells[from].is_space() {
        from
    } else {
        next_space(cells, from + 1)
    }
}

/// The index of the last cell at or before `at` that is not gray; -1 where every one is gray.
pub open spec fn last_typed(cells: Seq<Character>, at: int) -> int
    decreases at + 1,
{
    if at < 0 {
        -1
    } else if cells[at].color != CharColor::Gray {
        at
    } else {
        last_typed(cells, at - 1)
    }
}

/// `cells` with the underline of every cell from `from` up to, not including, `to` set to
/// `underlined`.
pub open spec fn underline(cells: Seq<Character>, from: int, to: int, underlined: bool) -> Seq<
    Character,
> {
    Seq::new(
        cells.len(),
        |i: int|
            if from <= i < to {
                cells[i].marked(underlined)
            } else {
                cells[i]
            },
    )
}

/// `word_start` lies at or before `end`, no cell from it up to `end` is a space, and a space
/// stands before it unless it is 0.
pub proof fn lemma_word_start(cells: Seq<Character>, end: int)
    requires
        0 <= end <= cells.len(),
    ensures
        0 <= word_start(cells, end) <= end,
        forall|i: int| word_start(cells, end) <= i < end ==> !(#[trigger] cells[i]).is_space(),
        word_start(cells, end) > 0 ==> cells[word_start(cells, end) - 1].is_space(),
    decreases end,
{
    if end > 0 && !cells[end - 1].is_space() {
        lemma_word_start(cells, end - 1);
    }
}

/// `next_space` lies at or after `from`, no cell from `from` up to it is a space, and it is a
/// space unless it is the end of the buffer.
pub proof fn lemma_next_space(cells: Seq<Character>, from: int)
    requires
        0 <= from <= cells.len(),
    ensures
        from <= next_space(cells, from) <= cells.len(),
        forall|i: int| from <= i < next_space(cells, from) ==> !(#[trigger] cells[i]).is_space(),
        next_space(cells, from) < cells.len() ==> cells[next_space(cells, from)].is_space(),
    decreases cells.len() - from,
{
    if from < cells.len() && !cells[from].is_space() {
        lemma_next_space(cells, from + 1);
    }
}

/// `last_typed` lies at or before `at`, every cell behind it up to `at` is gray, and it is not
/// gray unless it is -1.
pub proof fn lemma_last_typed(cells: Seq<Character>, at: int)
    requires
        -1 <= at < cells.len(),
    ensures
        -1 <= last_typed(cells, at) <= at,
        forall|i: int| last_typed(cells, at) < i <= at ==> (#[trigger] cells[i]).color == CharColor::Gray,
        last_typed(cells, at) >= 0 ==> cells[last_typed(cells, at)].color != CharColor::Gray,
    decreases at + 1,
{
    if at >= 0 && cells[at].color == CharColor::Gray {
        lemma_last_typed(cells, at - 1);
    }
}

/// The state of a typing session.
pub struct Session {
    /// The buffer: the text, and among it the characters typed past the end of a word.
    pub cells: Seq<Character>,
    /// The index of the cell that the next character is held against.
    pub cursor: int,
    /// Whether a character has been typed yet.
    pub started: bool,
}

impl Session {
    /// The session that a text starts as.
    pub open spec fn fresh(text: Seq<char>) -> Session {
        Session {
            cells: Seq::new(text.len(), |i: int| Character::spec_pending(text[i])),
            cursor: 0,
            started: false,
        }
    }

    /// What holds of every session that keystrokes lead to: the cursor lies in the buffer or at
    /// its end, nothing at or after the cursor has been typed, the first cell has been typed
    /// once the cursor has left it, and the buffer does not end in a character typed past the
    /// end of a word.
    pub open spec fn wf(self) -> bool {
        &&& 0 <= self.cursor <= self.cells.len()
        &&& forall|i: int| self.cursor <= i < self.cells.len() ==> (#[trigger] self.cells[i]).color == CharColor::Gray
        &&& self.cursor > 0 ==> self.cells[0].color != CharColor::Gray
        &&& self.cells.len() > 0 ==> !self.cells.last().is_extra()
    }

    /// Whether the cursor stands behind a cell of a word.
    pub open spec fn is_started_word(self) -> bool {
        self.cursor > 0 && !self.cells[self.cursor - 1].is_space()
    }

    /// Whether a space stands at the cursor or behind it.
    pub open spec fn space_ahead(self) -> bool {
        next_space(self.cells, self.cursor) < self.cells.len()
    }

    /// How far the cursor is from the cell behind the next space; 0 where no space is ahead.
    pub open spec fn next_word_distance(self) -> int {
        if self.space_ahead() {
            next_space(self.cells, self.cursor) - self.cursor + 1
        } else {
            0
        }
    }

    /// Whether the word before the last space that precedes the cursor holds a cell that is not
    /// white. False where no space precedes the cursor.
    pub open spec fn is_error_in_previous_word(self) -> bool {
        let space = word_start(self.cells, self.cursor) - 1;
        space >= 0 && exists|i: int|
            word_start(self.cells, space) <= i < space && (#[trigger] self.cells[i]).color
                != CharColor::White
    }

    /// The session after a character that is neither the space nor the backspace.
    ///
    /// The cell at the cursor turns white where it holds `c`, and red where it holds another
    /// character of a word. Where it is a space, a cell for `c` is put in before it. Then the
    /// cursor moves on by one. At the end of the buffer the keystroke changes nothing, not even
    /// `started`.
    pub open spec fn type_char(self, c: char) -> Session {
        if self.cursor >= self.cells.len() {
            self
        } else {
            let expected = self.cells[self.cursor];
            let cells = if expected.value == c {
                self.cells.update(self.cursor, expected.painted(CharColor::White))
            } else if expected.is_space() {
                self.cells.insert(self.cursor, Character::spec_extra(c))
            } else {
                self.cells.update(self.cursor, expected.painted(CharColor::Red))
            };
            Session { cells, cursor: self.cursor + 1, started: true }
        }
    }

    /// The session after the space.
    ///
    /// Inside a word the cursor moves behind the next space and leaves the rest of the word
    /// gray; in the last word, with no space ahead, it stays. Then, where the word before the
    /// last space that precedes the cursor holds a cell that is not white, the word that ends
    /// two cells before the cursor is underlined.
    pub open spec fn press_space(self) -> Session {
        let cursor = if self.is_started_word() {
            self.cursor + self.next_word_distance()
        } else {
            self.cursor
        };
        let moved = Session { cells: self.cells, cursor, started: self.started };
        if moved.is_error_in_previous_word() {
            Session {
                cells: underline(self.cells, word_start(self.cells, cursor - 1), cursor - 1, true),
                cursor,
                started: self.started,
            }
        } else {
            moved
        }
    }

    /// Whether the backspace takes anything back: not at the start of the buffer, and behind a
    /// space only where the word before it holds a cell that is not white.
    pub open spec fn can_delete(self) -> bool {
        self.cursor > 0 && (self.is_started_word() || self.is_error_in_previous_word())
    }

    /// The session after the backspace.
    ///
    /// Nothing changes unless `can_delete`. Else the cursor steps back by one. Where it then
    /// stands on a space, the word before the space loses its underline. A character typed past
    /// the end of a word leaves the buffer; from a gray cell, which a space has skipped, the
    /// cursor goes back to the cell behind the last one that is not gray. The cell that the
    /// cursor ends on turns gray.
    pub open spec fn delete(self) -> Session {
        if !self.can_delete() {
            self
        } else {
            let back = self.cursor - 1;
            let left = self.cells[back];
            let cleared = if left.is_space() {
                underline(self.cells, word_start(self.cells, back), back, false)
            } else {
                self.cells
            };
            let kept = if left.is_extra() {
                cleared.remove(back)
            } else {
                cleared
            };
            let cursor = if left.color == CharColor::Gray {
                last_typed(self.cells, back) + 1
            } else {
                back
            };
            Session {
                cells: kept.update(cursor, kept[cursor].painted(CharColor::Gray)),
                cursor,
                started: self.started,
            }
        }
    }

    /// The session after the keystroke `c`.
    pub open spec fn input(self, c: char) -> Session {
        if c == BACKSPACE_CHAR {
            self.delete()
        } else if c == SPACE_CHAR {
            self.press_space()
        } else {
            self.type_char(c)
        }
    }

    /// The session after the keystrokes `keys`, first to last.
    pub open spec fn inputs(self, keys: Seq<char>) -> Session
        decreases keys.len(),
    {
        if keys.len() == 0 {
            self
        } else {
            self.inputs(keys.drop_last()).input(keys.last())
        }
    }
}

/// Underlining changes no colour, so `last_typed` is the same before and after it.
pub proof fn lemma_last_typed_underline(
    cells: Seq<Character>,
    from: int,
    to: int,
    underlined: bool,
    at: int,
)
    requires
        -1 <= at < cells.len(),
    ensures
        last_typed(underline(cells, from, to, underlined), at) == last_typed(cells, at),
    decreases at + 1,
{
    if at >= 0 && cells[at].color == CharColor::Gray {
        lemma_last_typed_underline(cells, from, to, underlined, at - 1);
    }
}

} // verus!
