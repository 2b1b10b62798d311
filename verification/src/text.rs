//! The text inside the buffer: the cells that are not characters typed past the end of a word.
use vstd::prelude::*;
use crate::cell::Character;

verus! {

/// The characters of the cells that were not typed past the end of a word, in their order.
pub open spec fn text_of(cells: Seq<Character>) -> Seq<char>
    decreases cells.len(),
{
    if cells.len() == 0 {
        Seq::empty()
    } else if cells.last().is_extra() {
        text_of(cells.drop_last())
    } else {
        text_of(cells.drop_last()).push(cells.last().value)
    }
}

/// How many of the cells hold a character typed past the end of a word.
pub open spec fn extras_in(cells: Seq<Character>) -> nat
    decreases cells.len(),
{
    if cells.len() == 0 {
        0
    } else if cells.last().is_extra() {
        extras_in(cells.drop_last()) + 1
    } else {
        extras_in(cells.drop_last())
    }
}

/// A buffer is as long as its text and its extra characters together.
pub proof fn lemma_text_and_extras(cells: Seq<Character>)
    ensures
        cells.len() == text_of(cells).len() + extras_in(cells),
    decreases cells.len(),
{
    if cells.len() > 0 {
        lemma_text_and_extras(cells.drop_last());
    }
}

/// The text of two buffers in a row is the text of the first and then that of the second, and
/// their extra characters add up.
pub proof fn lemma_text_of_concat(a: Seq<Character>, b: Seq<Character>)
    ensures
        text_of(a + b) == text_of(a) + text_of(b),
        extras_in(a + b) == extras_in(a) + extras_in(b),
    decreases b.len(),
{
    if b.len() == 0 {
        assert(a + b =~= a);
        assert(text_of(a) + text_of(b) =~= text_of(a));
    } else {
        assert((a + b).drop_last() =~= a + b.drop_last());
        lemma_text_of_concat(a, b.drop_last());
        if !b.last().is_extra() {
            assert((text_of(a) + text_of(b.drop_last())).push(b.last().value) =~= text_of(a)
                + text_of(b.drop_last()).push(b.last().value));
        }
    }
}

/// Two buffers that agree cell by cell on the character and on whether it is extra have the
/// same text and as many extra characters.
pub proof fn lemma_text_of_alike(a: Seq<Character>, b: Seq<Character>)
    requires
        a.len() == b.len(),
        forall|i: int|
            0 <= i < a.len() ==> a[i].value == b[i].value && a[i].is_extra() == b[i].is_extra(),
    ensures
        text_of(a) == text_of(b),
        extras_in(a) == extras_in(b),
    decreases a.len(),
{
    if a.len() > 0 {
        lemma_text_of_alike(a.drop_last(), b.drop_last());
    }
}

/// An extra character that is put into a buffer leaves the text as it was and is counted.
pub proof fn lemma_text_of_insert(cells: Seq<Character>, at: int, cell: Character)
    requires
        0 <= at <= cells.len(),
        cell.is_extra(),
    ensures
        text_of(cells.insert(at, cell)) == text_of(cells),
        extras_in(cells.insert(at, cell)) == extras_in(cells) + 1,
{
    let head = cells.take(at);
    let tail = cells.skip(at);
    assert(cells =~= head + tail);
    assert(cells.insert(at, cell) =~= head.push(cell) + tail);
    assert(head.push(cell).drop_last() =~= head);
    lemma_text_of_concat(head, tail);
    lemma_text_of_concat(head.push(cell), tail);
}

/// An extra character that leaves a buffer leaves the text as it was and is no longer counted.
pub proof fn lemma_text_of_remove(cells: Seq<Character>, at: int)
    requires
        0 <= at < cells.len(),
        cells[at].is_extra(),
    ensures
        text_of(cells.remove(at)) == text_of(cells),
        extras_in(cells.remove(at)) + 1 == extras_in(cells),
{
    assert(cells.remove(at).insert(at, cells[at]) =~= cells);
    lemma_text_of_insert(cells.remove(at), at, cells[at]);
}

} // verus!
