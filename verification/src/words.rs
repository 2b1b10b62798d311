//! Sessions on a text made of words: given words, or words drawn at random.
use vstd::prelude::*;
use crate::cell::SPACE_CHAR;
use crate::game::Game;
use crate::session::Session;

verus! {

/// The words with one space between each two of them.
pub open spec fn join_words(words: Seq<Seq<char>>) -> Seq<char>
    decreases words.len(),
{
    if words.len() == 0 {
        Seq::empty()
    } else if words.len() == 1 {
        words[0]
    } else {
        join_words(words.drop_last()) + seq![SPACE_CHAR] + words.last()
    }
}

/// The characters of each word.
pub open spec fn word_views(words: Seq<&str>) -> Seq<Seq<char>> {
    Seq::new(words.len(), |i: int| words[i]@)
}

/// Calls `random_word::gen` for the English list: one word of that list, picked at random by
/// the thread's generator. Which word comes back differs from call to call, so nothing is
/// claimed of it.
#[verifier::external_body]
fn random_english_word() -> (word: &'static str) {
    random_word::gen(random_word::Lang::En)
}

impl Game {
    /// A session on the text that joins `words` by single spaces, with nothing typed.
    pub fn from_words(words: &Vec<&str>) -> (game: Game)
        ensures
            game@ == Session::fresh(join_words(word_views(words@))),
            game@.wf(),
    {
        let ghost views = word_views(words@);
        let mut final_string = String::new();
        for index in 0..words.len()
            invariant
                views == word_views(words@),
                final_string@ == join_words(views.take(index as int)),
        {
            proof {
                reveal_strlit(" ");
                assert(" "@ =~= seq![SPACE_CHAR]);
                assert(views.take(index + 1).drop_last() =~= views.take(index as int));
            }
            if index > 0 {
                final_string.append(" ");
            }
            final_string.append(words[index]);
        }
        assert(views.take(words.len() as int) =~= views);
        Game::new(final_string)
    }

    /// A session on `size` words drawn at random and joined by single spaces, with nothing
    /// typed.
    pub fn generate(size: usize) -> (game: Game)
        ensures
            exists|words: Seq<Seq<char>>|
                words.len() == size && game@ == Session::fresh(#[trigger] join_words(words)),
            game@.wf(),
    {
        let mut words: Vec<&'static str> = Vec::new();
        for word in 0..size
            invariant
                words.len() == word,
        {
            words.push(random_english_word());
        }
        let game = Game::from_words(&words);
        assert(word_views(words@).len() == size);
        game
    }
}

} // verus!
