//! Morphological analysis interface.

use vstd::prelude::*;
use crate::analysis::Analysis;

verus! {

/// A morphological analyzer: gives all analyses of a word.
pub trait Analyzer {
    /// Analyze the first `word_len` characters of `word` and return all
    /// valid analyses (none for an unknown word).
    fn analyze(&self, word: &[char], word_len: usize) -> Vec<Analysis>
        requires
            word_len <= word@.len(),
    ;
}

/// `r` is a list of analyses that `analyzer` may give when asked about the
/// word `w`, handed to it as the first `w.len()` characters of a slice (the
/// characters that `analyze` is to analyze).
pub open spec fn analyzer_answer<A: Analyzer>(analyzer: &A, w: Seq<char>, r: Seq<Analysis>) -> bool {
    exists|word: &[char], v: Vec<Analysis>|
        #[trigger] call_ensures(A::analyze, (analyzer, word, w.len() as usize), v) && w.len() <= word@.len()
            && word@.take(w.len() as int) == w && v@ == r
}

/// Whether `analyzer` answers alike for alike words: any two lists of
/// analyses that it may give when asked about the same word are the same.
pub open spec fn analyses_alike<A: Analyzer>(analyzer: &A) -> bool {
    forall|w: Seq<char>, a: Seq<Analysis>, b: Seq<Analysis>|
        #[trigger] analyzer_answer(analyzer, w, a) && #[trigger] analyzer_answer(analyzer, w, b) ==> a == b
}

/// Whether `analyzer` gives at most one analysis for any word.
pub open spec fn single_readings<A: Analyzer>(analyzer: &A) -> bool {
    forall|w: Seq<char>, a: Seq<Analysis>| #[trigger] analyzer_answer(analyzer, w, a) ==> a.len() <= 1
}

/// Asks `analyzer` about the first `word_len` characters of `word`. The
/// method is called through a function value, so that its result is known
/// to be a list of analyses given for exactly this question
/// (`call_ensures`).
pub fn ask_analyzer<A: Analyzer>(analyzer: &A, word: &[char], word_len: usize) -> (r: Vec<Analysis>)
    requires
        word_len <= word@.len(),
    ensures
        analyzer_answer(analyzer, word@.take(word_len as int), r@),
{
    let analyze = A::analyze;
    analyze(analyzer, word, word_len)
}

/// The attribute maps of a list of analyses.
pub open spec fn analyses_view(v: Seq<Analysis>) -> Seq<Map<Seq<char>, Seq<char>>> {
    v.map_values(|a: Analysis| a@)
}

} // verus!
