//! What holds of every session, whatever the text and whatever is typed.
use vstd::prelude::*;
use crate::cell::{Character, BACKSPACE_CHAR, SPACE_CHAR};
use crate::session::{
    lemma_last_typed, lemma_next_space, next_space, underline, word_start, Session,
};
use crate::text::{
    extras_in, lemma_text_and_extras, lemma_text_of_alike, lemma_text_of_insert,
    lemma_text_of_remove, text_of,
};

verus! {

/// Whether `c` is a character to hold against the text: neither the space nor the backspace.
pub open spec fn printable(c: char) -> bool {
    c != SPACE_CHAR && c != BACKSPACE_CHAR
}

/// How many of the keystrokes `keys` are characters to hold against the text.
pub open spec fn printable_in(keys: Seq<char>) -> nat
    decreases keys.len(),
{
    if keys.len() == 0 {
        0
    } else if printable(keys.last()) {
        printable_in(keys.drop_last()) + 1
    } else {
        printable_in(keys.drop_last())
    }
}

/// `count` backspaces.
pub open spec fn backspaces(count: nat) -> Seq<char> {
    Seq::new(count, |i: int| BACKSPACE_CHAR)
}

/// Whether two sessions have the same buffer and the same cursor.
pub open spec fn same_buffer(a: Session, b: Session) -> bool {
    a.cells == b.cells && a.cursor == b.cursor
}

/// A character that is typed keeps the session well-formed.
pub proof fn lemma_type_char_wf(s: Session, c: char)
    requires
        s.wf(),
    ensures
        s.type_char(c).wf(),
{
}

/// The space keeps the session well-formed.
pub proof fn lemma_press_space_wf(s: Session)
    requires
        s.wf(),
    ensures
        s.press_space().wf(),
{
    lemma_next_space(s.cells, s.cursor);
}

/// The backspace keeps the session well-formed.
pub proof fn lemma_delete_wf(s: Session)
    requires
        s.wf(),
    ensures
        s.delete().wf(),
{
    if s.can_delete() {
        lemma_last_typed(s.cells, s.cursor - 1);
    }
}

/// Every keystroke keeps the session well-formed: in particular the cursor stays in the buffer
/// or at its end.
pub proof fn lemma_input_wf(s: Session, c: char)
    requires
        s.wf(),
    ensures
        s.input(c).wf(),
        0 <= s.input(c).cursor <= s.input(c).cells.len(),
{
    lemma_type_char_wf(s, c);
    lemma_press_space_wf(s);
    lemma_delete_wf(s);
}

/// Keystrokes in a row keep a session well-formed: the cursor never leaves the buffer.
pub proof fn lemma_inputs_wf(s: Session, keys: Seq<char>)
    requires
        s.wf(),
    ensures
        s.inputs(keys).wf(),
        0 <= s.inputs(keys).cursor <= s.inputs(keys).cells.len(),
    decreases keys.len(),
{
    if keys.len() > 0 {
        lemma_inputs_wf(s, keys.drop_last());
        lemma_input_wf(s.inputs(keys.drop_last()), keys.last());
    }
}

/// Whatever the text and whatever is typed on it, the cursor lies in the buffer or at its end.
pub proof fn lemma_cursor_in_buffer(text: Seq<char>, keys: Seq<char>)
    ensures
        Session::fresh(text).inputs(keys).wf(),
        0 <= Session::fresh(text).inputs(keys).cursor <= Session::fresh(text).inputs(keys).cells.len(),
{
    lemma_inputs_wf(Session::fresh(text), keys);
}

/// The backspace at the start of the buffer changes nothing, whatever the buffer holds.
pub proof fn lemma_backspace_at_start(s: Session)
    requires
        s.cursor == 0,
    ensures
        s.input(BACKSPACE_CHAR) == s,
{
}

/// No keystroke changes the text in the buffer: only characters typed past the end of a word
/// come and go. A character that is typed adds at most one of them, and the space and the
/// backspace add none.
pub proof fn lemma_input_keeps_text(s: Session, c: char)
    requires
        s.wf(),
    ensures
        text_of(s.input(c).cells) == text_of(s.cells),
        s.input(c).cells.len() - s.cells.len() == extras_in(s.input(c).cells) - extras_in(s.cells),
        extras_in(s.input(c).cells) <= extras_in(s.cells) + (if printable(c) { 1nat } else { 0nat }),
{
    let after = s.input(c);
    lemma_text_and_extras(s.cells);
    lemma_text_and_extras(after.cells);
    if c == BACKSPACE_CHAR {
        if s.can_delete() {
            let back = s.cursor - 1;
            let left = s.cells[back];
            let cleared = if left.is_space() {
                underline(s.cells, word_start(s.cells, back), back, false)
            } else {
                s.cells
            };
            let kept = if left.is_extra() {
                cleared.remove(back)
            } else {
                cleared
            };
            lemma_last_typed(s.cells, back);
            lemma_text_of_alike(s.cells, cleared);
            if left.is_extra() {
                lemma_text_of_remove(cleared, back);
            }
            lemma_text_of_alike(kept, after.cells);
        }
    } else if c == SPACE_CHAR {
        lemma_text_of_alike(s.cells, after.cells);
    } else if s.cursor < s.cells.len() {
        let expected = s.cells[s.cursor];
        if expected.value != c && expected.is_space() {
            lemma_text_of_insert(s.cells, s.cursor, Character::spec_extra(c));
        } else {
            lemma_text_of_alike(s.cells, after.cells);
        }
    }
}

/// Keystrokes in a row leave the text in the buffer as it was. The buffer grows and shrinks by
/// the characters typed past the end of a word alone, and no more of them come in than
/// characters are typed.
pub proof fn lemma_inputs_keep_text(s: Session, keys: Seq<char>)
    requires
        s.wf(),
    ensures
        text_of(s.inputs(keys).cells) == text_of(s.cells),
        s.inputs(keys).cells.len() - s.cells.len() == extras_in(s.inputs(keys).cells) - extras_in(
            s.cells,
        ),
        extras_in(s.inputs(keys).cells) <= extras_in(s.cells) + printable_in(keys),
    decreases keys.len(),
{
    if keys.len() > 0 {
        lemma_inputs_keep_text(s, keys.drop_last());
        lemma_inputs_wf(s, keys.drop_last());
        lemma_input_keeps_text(s.inputs(keys.drop_last()), keys.last());
    }
}

/// Whatever is typed on a text, the buffer holds that text, and besides it only characters
/// typed past the end of a word: no more of them than characters were typed.
pub proof fn lemma_buffer_holds_text(text: Seq<char>, keys: Seq<char>)
    ensures
        text_of(Session::fresh(text).inputs(keys).cells) == text,
        Session::fresh(text).inputs(keys).cells.len() == text.len() + extras_in(
            Session::fresh(text).inputs(keys).cells,
        ),
        extras_in(Session::fresh(text).inputs(keys).cells) <= printable_in(keys),
{
    lemma_fresh_text(text);
    lemma_inputs_keep_text(Session::fresh(text), keys);
}

/// A fresh buffer holds the text and nothing else.
proof fn lemma_fresh_text(text: Seq<char>)
    ensures
        text_of(Session::fresh(text).cells) == text,
        extras_in(Session::fresh(text).cells) == 0,
    decreases text.len(),
{
    let cells = Session::fresh(text).cells;
    if text.len() > 0 {
        assert(cells.drop_last() =~= Session::fresh(text.drop_last()).cells);
        lemma_fresh_text(text.drop_last());
        assert(text.drop_last().push(text.last()) =~= text);
    } else {
        assert(text =~= Seq::empty());
    }
}

/// Typing `a` and then `b` is typing `a + b`.
pub proof fn lemma_inputs_concat(s: Session, a: Seq<char>, b: Seq<char>)
    ensures
        s.inputs(a + b) == s.inputs(a).inputs(b),
    decreases b.len(),
{
    if b.len() == 0 {
        assert(a + b =~= a);
    } else {
        assert((a + b).drop_last() =~= a + b.drop_last());
        lemma_inputs_concat(s, a, b.drop_last());
    }
}

/// The first space at or after `from` is at or before every space there.
proof fn lemma_next_space_least(cells: Seq<Character>, from: int, space: int)
    requires
        0 <= from <= space < cells.len(),
        cells[space].is_space(),
    ensures
        next_space(cells, from) <= space,
    decreases space - from,
{
    if !cells[from].is_space() {
        lemma_next_space_least(cells, from + 1, space);
    }
}

/// A character that is typed moves the cursor on by one at most, takes no cell from the
/// buffer, and leaves a space ahead where one was ahead.
proof fn lemma_type_char_moves_on(s: Session, c: char)
    requires
        s.wf(),
        printable(c),
    ensures
        s.type_char(c).cursor <= s.cursor + 1,
        s.type_char(c).cells.len() >= s.cells.len(),
        s.space_ahead() ==> s.type_char(c).space_ahead(),
{
    if s.space_ahead() {
        let after = s.type_char(c);
        let space = next_space(s.cells, s.cursor);
        lemma_next_space(s.cells, s.cursor);
        if s.cells[s.cursor].is_space() {
            assert(after.cells[after.cursor].is_space());
        } else {
            assert(after.cells[space].is_space());
            lemma_next_space_least(after.cells, after.cursor, space);
        }
    }
}

/// Characters that are typed move the cursor on by one each at most, take no cell from the
/// buffer, and leave a space ahead where one was ahead.
proof fn lemma_typing_moves_on(s: Session, keys: Seq<char>)
    requires
        s.wf(),
        forall|i: int| 0 <= i < keys.len() ==> printable(#[trigger] keys[i]),
    ensures
        s.inputs(keys).wf(),
        s.inputs(keys).cursor <= s.cursor + keys.len(),
        s.inputs(keys).cells.len() >= s.cells.len(),
        s.space_ahead() ==> s.inputs(keys).space_ahead(),
    decreases keys.len(),
{
    if keys.len() > 0 {
        lemma_typing_moves_on(s, keys.drop_last());
        lemma_type_char_moves_on(s.inputs(keys.drop_last()), keys.last());
        lemma_input_wf(s.inputs(keys.drop_last()), keys.last());
    }
}

/// A character that finds a cell at the cursor, and then the backspace, leave the buffer and
/// the cursor as they were.
pub proof fn lemma_type_then_backspace(s: Session, c: char)
    requires
        s.wf(),
        printable(c),
        s.cursor < s.cells.len(),
    ensures
        same_buffer(s.input(c).input(BACKSPACE_CHAR), s),
{
    let typed = s.type_char(c);
    assert(!typed.cells[s.cursor].is_space());
    assert(typed.can_delete());
    assert(typed.delete().cells =~= s.cells);
}

/// Backspaces make the same of two sessions with the same buffer and cursor.
proof fn lemma_backspaces_alike(a: Session, b: Session, count: nat)
    requires
        same_buffer(a, b),
    ensures
        same_buffer(a.inputs(backspaces(count)), b.inputs(backspaces(count))),
    decreases count,
{
    if count > 0 {
        assert(backspaces(count).drop_last() =~= backspaces((count - 1) as nat));
        lemma_backspaces_alike(a, b, (count - 1) as nat);
    }
}

/// Characters that are typed, and then as many backspaces, leave the buffer and the cursor as
/// they were.
///
/// This holds where each of the characters finds a cell at the cursor: a space is ahead, before
/// which they all find room, or the buffer has a cell left for each. A character typed at the
/// end of the buffer is ignored, and its backspace then takes back an earlier keystroke; so
/// beyond that the law holds only where the backspace takes nothing back from `s` itself.
pub proof fn lemma_typing_then_backspaces(s: Session, keys: Seq<char>)
    requires
        s.wf(),
        forall|i: int| 0 <= i < keys.len() ==> printable(#[trigger] keys[i]),
        s.space_ahead() || s.cursor + keys.len() <= s.cells.len() || !s.can_delete(),
    ensures
        same_buffer(s.inputs(keys + backspaces(keys.len())), s),
    decreases keys.len(),
{
    let count = keys.len();
    lemma_inputs_concat(s, keys, backspaces(count));
    if count > 0 {
        let fewer = (count - 1) as nat;
        let before = s.inputs(keys.drop_last());
        let typed = before.input(keys.last());
        lemma_typing_then_backspaces(s, keys.drop_last());
        lemma_inputs_concat(s, keys.drop_last(), backspaces(fewer));
        lemma_typing_moves_on(s, keys.drop_last());
        if before.cursor < before.cells.len() {
            assert(backspaces(count) =~= seq![BACKSPACE_CHAR] + backspaces(fewer));
            lemma_inputs_concat(typed, seq![BACKSPACE_CHAR], backspaces(fewer));
            assert(seq![BACKSPACE_CHAR].drop_last() =~= Seq::<char>::empty());
            assert(typed.inputs(seq![BACKSPACE_CHAR]) == typed.input(BACKSPACE_CHAR)) by {
                assert(typed.inputs(Seq::<char>::empty()) == typed);
            }
            lemma_type_then_backspace(before, keys.last());
            lemma_backspaces_alike(typed.input(BACKSPACE_CHAR), before, fewer);
        } else {
            lemma_next_space(before.cells, before.cursor);
            assert(typed == before);
            assert(backspaces(count).drop_last() =~= backspaces(fewer));
        }
    }
}

} // verus!
