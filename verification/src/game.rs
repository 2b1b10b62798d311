//! The typing session as it runs: a buffer of cells, a cursor, and the keystrokes.
use vstd::prelude::*;
use crate::cell::{CharColor, Character, BACKSPACE_CHAR, SPACE_CHAR};
use crate::laws::{lemma_input_keeps_text, lemma_input_wf};
use crate::session::{
    last_typed, lemma_last_typed, lemma_last_typed_underline, lemma_next_space, lemma_word_start,
    next_space, underline, word_start, Session,
};
use crate::text::text_of;

verus! {

/// A keystroke by its kind.
enum InputAction {
    /// A character that is neither the space nor the backspace.
    Insert(char),
    Space,
    Backspace,
}

impl InputAction {
    /// What the keystroke makes of the session `s`.
    spec fn apply(self, s: Session) -> Session {
        match self {
            InputAction::Insert(c) => s.type_char(c),
            InputAction::Space => s.press_space(),
            InputAction::Backspace => s.delete(),
        }
    }
}

/// A typing session.
pub struct Game {
    pub characters: Vec<Character>,
    pub position: usize,
    pub started: bool,
}

impl View for Game {
    type V = Session;

    open spec fn view(&self) -> Session {
        Session { cells: self.characters@, cursor: self.position as int, started: self.started }
    }
}

impl Game {
    /// A session on `text`, with nothing typed.
    pub fn new(text: String) -> (game: Game)
        ensures
            game@ == Session::fresh(text@),
            game@.wf(),
    {
        let mut characters: Vec<Character> = Vec::new();
        for character in it: text.as_str().chars()
            invariant
                it.seq() == text@,
                characters@.len() == it.index(),
                forall|i: int| 0 <= i < it.index() ==> characters@[i] == Character::spec_pending(text@[i]),
        {
            characters.push(Character::pending(character));
        }
        assert(characters@ =~= Session::fresh(text@).cells);
        Game { characters, position: 0, started: false }
    }

    /// Whether the session is well-formed: whether keystrokes can have led to it.
    pub fn well_formed(&self) -> (valid: bool)
        ensures
            valid == self@.wf(),
    {
        let length = self.characters.len();
        if self.position > length {
            return false;
        }
        if self.position > 0 && self.characters[0].color == CharColor::Gray {
            return false;
        }
        if length > 0 && self.characters[length - 1].color == CharColor::TransparentRed {
            return false;
        }
        let mut index: usize = self.position;
        while index < length
            invariant
                length == self.characters.len(),
                self.position <= index <= length,
                forall|i: int|
                    self.position <= i < index ==> (#[trigger] self.characters@[i]).color
                        == CharColor::Gray,
            decreases length - index,
        {
            if self.characters[index].color != CharColor::Gray {
                return false;
            }
            index += 1;
        }
        true
    }

    /// The cell at the cursor.
    fn expected_character(&self) -> (cell: &Character)
        requires
            self.position < self.characters.len(),
        ensures
            *cell == self.characters@[self.position as int],
    {
        &self.characters[self.position]
    }

    /// Takes the underline from the cell at `position`.
    fn remove_underline(&mut self, position: usize)
        requires
            position < old(self).characters.len(),
        ensures
            final(self).characters@ == old(self).characters@.update(
                position as int,
                old(self).characters@[position as int].marked(false),
            ),
            final(self).position == old(self).position,
            final(self).started == old(self).started,
    {
        self.characters[position].underlined = false;
    }

    /// Gives the cell at the cursor the colour `color`.
    fn change_character_color(&mut self, color: CharColor)
        requires
            old(self).position < old(self).characters.len(),
        ensures
            final(self).characters@ == old(self).characters@.update(
                old(self).position as int,
                old(self).characters@[old(self).position as int].painted(color),
            ),
            final(self).position == old(self).position,
            final(self).started == old(self).started,
    {
        self.characters[self.position].color = color;
    }

    /// Sets or clears the underline of the word that ends just before `end`.
    fn underline_word(&mut self, end: usize, underlined: bool)
        requires
            end <= old(self).characters.len(),
        ensures
            final(self).characters@ == underline(
                old(self).characters@,
                word_start(old(self).characters@, end as int),
                end as int,
                underlined,
            ),
            final(self).position == old(self).position,
            final(self).started == old(self).started,
    {
        let ghost cells = self.characters@;
        let mut index: usize = end;
        assert(self.characters@ =~= underline(cells, end as int, end as int, underlined));
        while index > 0 && self.characters[index - 1].value != SPACE_CHAR
            invariant
                index <= end <= cells.len(),
                self.characters@ == underline(cells, index as int, end as int, underlined),
                word_start(cells, index as int) == word_start(cells, end as int),
                self.position == old(self).position,
                self.started == old(self).started,
            decreases index,
        {
            index -= 1;
            if underlined {
                self.characters[index].underlined = true;
            } else {
                self.remove_underline(index);
            }
            assert(self.characters@ =~= underline(cells, index as int, end as int, underlined));
        }
    }

    /// Carries out one keystroke. The backspace is handed in only where it takes something
    /// back.
    fn handle_action(&mut self, action: InputAction)
        requires
            old(self)@.wf(),
            action is Backspace ==> old(self)@.can_delete(),
        ensures
            final(self)@ == action.apply(old(self)@),
    {
        let ghost before = self@;
        match action {
            InputAction::Backspace => {
                self.position -= 1;
                let ghost back = self.position as int;
                if self.expected_character().value == SPACE_CHAR {
                    self.underline_word(self.position, false);
                }
                let ghost cleared = self.characters@;
                if self.expected_character().color == CharColor::TransparentRed {
                    self.characters.remove(self.position);
                } else if self.expected_character().color == CharColor::Gray {
                    proof {
                        assert(cleared[0].color == before.cells[0].color);
                        lemma_last_typed(cleared, back);
                        if before.cells[back].is_space() {
                            lemma_last_typed_underline(
                                before.cells,
                                word_start(before.cells, back),
                                back,
                                false,
                                back,
                            );
                        }
                    }
                    while self.expected_character().color == CharColor::Gray
                        invariant
                            self.characters@ == cleared,
                            self.started == before.started,
                            0 <= self.position <= back < cleared.len(),
                            last_typed(cleared, self.position as int) == last_typed(cleared, back),
                            last_typed(cleared, back) >= 0,
                        decreases self.position,
                    {
                        proof {
                            lemma_last_typed(cleared, self.position as int - 1);
                        }
                        self.position -= 1;
                    }
                    self.position += 1;
                }
                self.change_character_color(CharColor::Gray);
            },
            InputAction::Space => {
                if self.is_started_word() {
                    self.position += self.next_word_distance();
                }
                if self.is_error_in_previous_word() {
                    proof {
                        lemma_word_start(self.characters@, self.position as int);
                    }
                    self.underline_word(self.position - 1, true);
                }
            },
            InputAction::Insert(character) => {
                if self.position >= self.characters.len() {
                    return ;
                }
                if !self.started {
                    self.started = true
                }
                if self.expected_character().value != character {
                    if self.expected_character().value == SPACE_CHAR {
                        self.characters.insert(self.position, Character::extra(character))
                    } else {
                        self.change_character_color(CharColor::Red);
                    }
                } else {
                    self.change_character_color(CharColor::White);
                }
                self.position += 1;
            },
        }
    }

    /// Takes the keystroke `c`: the backspace, the space, or a character to hold against the
    /// text.
    pub fn input(&mut self, c: char)
        requires
            old(self)@.wf(),
        ensures
            final(self)@ == old(self)@.input(c),
            final(self)@.wf(),
            final(self).position <= final(self).characters.len(),
            text_of(final(self).characters@) == text_of(old(self).characters@),
            c == BACKSPACE_CHAR && old(self).position == 0 ==> final(self)@ == old(self)@,
            old(self).started ==> final(self).started,
    {
        proof {
            lemma_input_wf(self@, c);
            lemma_input_keeps_text(self@, c);
        }
        if c == BACKSPACE_CHAR {
            if self.position == 0 || (!self.is_started_word() && !self.is_error_in_previous_word()) {
                return ;
            }
            self.handle_action(InputAction::Backspace);
        } else if c == SPACE_CHAR {
            self.handle_action(InputAction::Space);
        } else {
            self.handle_action(InputAction::Insert(c));
        }
    }

    /// Whether the cursor stands behind a cell of a word.
    pub fn is_started_word(&mut self) -> (started: bool)
        requires
            old(self).position <= old(self).characters.len(),
        ensures
            *final(self) == *old(self),
            started == old(self)@.is_started_word(),
    {
        if self.position == 0 {
            return false;
        }
        self.characters[self.position - 1].value != SPACE_CHAR
    }

    /// How many cells the cursor is from the cell behind the next space: 0 where no space is
    /// ahead.
    pub fn next_word_distance(&self) -> (distance: usize)
        requires
            self.position <= self.characters.len(),
        ensures
            distance == self@.next_word_distance(),
            distance == 0 ==> forall|i: int|
                self.position <= i < self.characters.len() ==> !(#[trigger] self.characters@[i]).is_space(),
            distance > 0 ==> {
                &&& self.position + distance <= self.characters.len()
                &&& self.characters@[self.position + distance - 1].is_space()
                &&& forall|i: int|
                    self.position <= i < self.position + distance - 1 ==> !(#[trigger] self.characters@[i]).is_space()
            },
    {
        proof {
            lemma_next_space(self.characters@, self.position as int);
        }
        let mut index: usize = self.position;
        while index < self.characters.len()
            invariant
                self.position <= index <= self.characters.len(),
                next_space(self.characters@, index as int) == next_space(
                    self.characters@,
                    self.position as int,
                ),
            decreases self.characters.len() - index,
        {
            if self.characters[index].value == SPACE_CHAR {
                proof {
                    lemma_next_space(self.characters@, self.position as int);
                }
                return index - self.position + 1;
            }
            index += 1;
        }
        0
    }

    /// Whether the word before the last space that precedes the cursor holds a cell that is not
    /// white. False where no space precedes the cursor.
    pub fn is_error_in_previous_word(&self) -> (error: bool)
        requires
            self.position <= self.characters.len(),
        ensures
            error == self@.is_error_in_previous_word(),
    {
        let ghost cells = self.characters@;
        let ghost space = word_start(cells, self.position as int) - 1;
        proof {
            lemma_word_start(cells, self.position as int);
            if space >= 0 {
                lemma_word_start(cells, space);
            }
        }
        let mut first_space_found = false;
        let mut index: usize = self.position;
        while index > 0
            invariant
                cells == self.characters@,
                space == word_start(cells, self.position as int) - 1,
                index <= self.position <= cells.len(),
                !first_space_found ==> word_start(cells, index as int) == space + 1,
                first_space_found ==> {
                    &&& 0 <= index <= space
                    &&& word_start(cells, index as int) == word_start(cells, space)
                    &&& forall|i: int| index <= i < space ==> (#[trigger] cells[i]).color == CharColor::White
                },
            decreases index,
        {
            index -= 1;
            let character = self.characters[index];
            if !first_space_found && character.value == SPACE_CHAR {
                first_space_found = true;
            } else if first_space_found && (character.value != SPACE_CHAR && character.color
                != CharColor::White) {
                proof {
                    lemma_word_start(cells, index as int + 1);
                }
                return true;
            } else if first_space_found && character.value == SPACE_CHAR {
                return false;
            }
        }
        false
    }
}

} // verus!
