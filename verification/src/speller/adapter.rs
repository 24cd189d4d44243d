//! Spell checking through morphological analysis.

use vstd::prelude::*;
use crate::analysis::{Analysis, ATTR_STRUCTURE};
use crate::enums::{spell_rank, spell_result_rank, SpellResult};
use crate::morphology::{analyses_view, analyzer_answer, ask_analyzer, Analyzer};
use crate::speller::utils::{match_word_and_analysis, spec_match_word_and_analysis};
use crate::speller::Speller;

verus! {

/// The better (lower ranked) of two results; `a` on a tie.
pub open spec fn better_result(a: SpellResult, b: SpellResult) -> SpellResult {
    if spell_rank(b) < spell_rank(a) {
        b
    } else {
        a
    }
}

/// What one analysis says of the word: the match against its STRUCTURE,
/// or `Failed` when it has none.
pub open spec fn structure_result(word: Seq<char>, a: Map<Seq<char>, Seq<char>>) -> SpellResult {
    if a.contains_key(ATTR_STRUCTURE@) {
        spec_match_word_and_analysis(word, a[ATTR_STRUCTURE@])
    } else {
        SpellResult::Failed
    }
}

/// The best result over all analyses; `Failed` when there are none.
pub open spec fn best_structure_result(word: Seq<char>, analyses: Seq<Map<Seq<char>, Seq<char>>>) -> SpellResult
    decreases analyses.len(),
{
    if analyses.len() == 0 {
        SpellResult::Failed
    } else {
        better_result(
            best_structure_result(word, analyses.drop_last()),
            structure_result(word, analyses.last()),
        )
    }
}

proof fn lemma_best_stays_correct(word: Seq<char>, analyses: Seq<Map<Seq<char>, Seq<char>>>, i: int)
    requires
        0 <= i <= analyses.len(),
        best_structure_result(word, analyses.take(i)) == SpellResult::Correct,
    ensures
        best_structure_result(word, analyses) == SpellResult::Correct,
    decreases analyses.len() - i,
{
    if i < analyses.len() {
        assert(analyses.take(i + 1).drop_last() =~= analyses.take(i));
        lemma_best_stays_correct(word, analyses, i + 1);
    } else {
        assert(analyses.take(i) =~= analyses);
    }
}

/// The best spelling result that a list of analyses gives for a word:
/// each analysis with a STRUCTURE attribute is matched against the word,
/// and the least severe result wins; `Failed` if no analysis has one.
pub fn best_structure_match(word: &[char], analyses: &Vec<Analysis>) -> (r: SpellResult)
    ensures
        r == best_structure_result(word@, analyses_view(analyses@)),
{
    let ghost av = analyses_view(analyses@);
    let mut best = SpellResult::Failed;
    let mut i: usize = 0;
    while i < analyses.len()
        invariant
            i <= analyses.len(),
            av == analyses_view(analyses@),
            best == best_structure_result(word@, av.take(i as int)),
        decreases analyses.len() - i,
    {
        assert(av.take(i + 1).drop_last() =~= av.take(i as int));
        assert(av[i as int] == analyses@[i as int]@);
        match analyses[i].get(ATTR_STRUCTURE) {
            Some(structure) => {
                let result = match_word_and_analysis(word, structure);
                if spell_result_rank(best) == 3 || spell_result_rank(best) > spell_result_rank(
                    result,
                ) {
                    best = result;
                }
            },
            None => {},
        }
        i += 1;
        if spell_result_rank(best) == 0 {
            proof {
                lemma_best_stays_correct(word@, av, i as int);
            }
            return best;
        }
    }
    assert(av.take(analyses.len() as int) =~= av);
    best
}

/// Adapts an analyzer to the speller interface: the word is analyzed and
/// its case checked against the STRUCTURE of each analysis.
pub struct AnalyzerToSpellerAdapter<'a, A: Analyzer> {
    analyzer: &'a A,
}

impl<'a, A: Analyzer> AnalyzerToSpellerAdapter<'a, A> {
    /// Create a new adapter wrapping the given analyzer.
    pub fn new(analyzer: &'a A) -> (r: Self)
        ensures
            r.analyzer() == analyzer,
    {
        AnalyzerToSpellerAdapter { analyzer }
    }

    /// The wrapped analyzer.
    pub closed spec fn analyzer(&self) -> &'a A {
        self.analyzer
    }

    /// Spell-check with the analyses that the analyzer gives for the word:
    /// the result is the best STRUCTURE match over them (see
    /// `best_structure_match`).
    pub fn spell_word(&self, word: &[char], word_len: usize) -> (r: SpellResult)
        requires
            word_len <= word@.len(),
        ensures
            exists|analyses: Seq<Analysis>|
                #[trigger] analyzer_answer(self.analyzer(), word@.take(word_len as int), analyses) && r
                    == best_structure_result(word@, analyses_view(analyses)),
    {
        let analyses = ask_analyzer(self.analyzer, word, word_len);
        assert(analyzer_answer(self.analyzer(), word@.take(word_len as int), analyses@));
        best_structure_match(word, &analyses)
    }
}

impl<'a, A: Analyzer> Speller for AnalyzerToSpellerAdapter<'a, A> {
    fn spell(&self, word: &[char], word_len: usize) -> (r: SpellResult)
        ensures
            exists|analyses: Seq<Analysis>|
                #[trigger] analyzer_answer(self.analyzer(), word@.take(word_len as int), analyses) && r
                    == best_structure_result(word@, analyses_view(analyses)),
    {
        self.spell_word(word, word_len)
    }
}

} // verus!
