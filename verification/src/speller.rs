//! Spell checking: the speller interface and its Finnish implementations.

pub mod adapter;
pub mod finnish;
pub mod pipeline;
pub mod utils;

use vstd::prelude::*;
use crate::enums::SpellResult;

verus! {

/// A spell checker.
pub trait Speller {
    /// Check whether the first `word_len` characters of `word` form a
    /// correct word, or would with different capitalization.
    fn spell(&self, word: &[char], word_len: usize) -> SpellResult
        requires
            word_len <= word@.len(),
    ;
}

/// `r` is an answer that `speller` may give when asked about the word `w`,
/// handed to it as the first `w.len()` characters of a slice (the
/// characters that `spell` is to check).
pub open spec fn speller_answer<S: Speller>(speller: &S, w: Seq<char>, r: SpellResult) -> bool {
    exists|word: &[char]|
        #[trigger] call_ensures(S::spell, (speller, word, w.len() as usize), r) && w.len() <= word@.len()
            && word@.take(w.len() as int) == w
}

/// Whether `speller` answers alike for alike words: any two answers that it
/// may give when asked about the same word are the same.
pub open spec fn answers_alike<S: Speller>(speller: &S) -> bool {
    forall|w: Seq<char>, a: SpellResult, b: SpellResult|
        #[trigger] speller_answer(speller, w, a) && #[trigger] speller_answer(speller, w, b) ==> a == b
}

/// Asks `speller` about the first `word_len` characters of `word`. The
/// method is called through a function value, so that its result is known
/// to be an answer to exactly this question (`call_ensures`).
pub fn ask_speller<S: Speller>(speller: &S, word: &[char], word_len: usize) -> (r: SpellResult)
    requires
        word_len <= word@.len(),
    ensures
        speller_answer(speller, word@.take(word_len as int), r),
{
    let spell = S::spell;
    spell(speller, word, word_len)
}

} // verus!
