//! The Finnish rule engine: every rule on a paragraph, errors in rule
//! order.

use vstd::prelude::*;
use crate::grammar::capitalization::{capitalization_errors, gc_capitalization};
use crate::grammar::checks::{
    ErrorView, GrammarOptions, GrammarParagraph, spans_fit, windows_fit, local_punctuation_from,
    quotations_from, repeating_from, missing_verb_errors, negative_verb_from, compound_verb_from,
    sidesana_errors, end_punctuation_errors, gc_local_punctuation, gc_punctuation_of_quotations,
    gc_repeating_words, gc_missing_verb, gc_negative_verb_mismatch, gc_compound_verb, gc_sidesana,
    gc_end_punctuation,
};
use crate::grammar::paragraph::GrammarSentence;
use crate::grammar_error::{GrammarError, errors_view};

verus! {

/// The errors that the sentence rules find in one sentence, rule by rule:
/// punctuation, quotations, repeated words, main verbs, negative verbs,
/// compound verbs, conjunctions.
pub open spec fn sentence_errors(s: GrammarSentence, opts: GrammarOptions) -> Seq<ErrorView> {
    let ts = s.tokens@;
    local_punctuation_from(ts, 0) + quotations_from(ts, 0) + repeating_from(ts, 0) + missing_verb_errors(
        s,
        opts,
    ) + negative_verb_from(ts, 0) + compound_verb_from(ts, 0) + sidesana_errors(ts)
}

/// The sentence errors of the first `n` sentences, in order.
pub open spec fn sentences_errors(ss: Seq<GrammarSentence>, n: int, opts: GrammarOptions) -> Seq<ErrorView>
    decreases n,
{
    if n <= 0 || n > ss.len() {
        Seq::empty()
    } else {
        sentences_errors(ss, n - 1, opts) + sentence_errors(ss[n - 1], opts)
    }
}

/// Every sentence of the paragraph has spans that fit (see `spans_fit`).
pub open spec fn paragraph_fits(p: GrammarParagraph) -> bool {
    forall|k: int|
        0 <= k < p.sentences@.len() ==> spans_fit(#[trigger] p.sentences@[k]) && windows_fit(
            p.sentences@[k].tokens@,
        )
}

/// All errors of a paragraph: the sentence rules on each sentence in
/// order, then capitalization, then the missing final punctuation.
pub open spec fn paragraph_errors(p: GrammarParagraph, opts: GrammarOptions) -> Seq<ErrorView> {
    sentences_errors(p.sentences@, p.sentences@.len() as int, opts) + capitalization_errors(p, opts)
        + end_punctuation_errors(p, opts)
}

/// Append the errors of `more` to `errors`.
fn extend_errors(errors: &mut Vec<GrammarError>, more: Vec<GrammarError>)
    ensures
        errors_view(final(errors)@) == errors_view(old(errors)@) + errors_view(more@),
{
    let ghost before = errors@;
    let ghost added = more@;
    let mut more = more;
    errors.append(&mut more);
    assert(errors_view(errors@) =~= errors_view(before) + errors_view(added));
}

/// The errors that the sentence rules find in one sentence.
fn check_sentence(sentence: &GrammarSentence, options: &GrammarOptions) -> (r: Vec<GrammarError>)
    requires
        spans_fit(*sentence),
        windows_fit(sentence.tokens@),
    ensures
        errors_view(r@) == sentence_errors(*sentence, *options),
{
    let mut errors = gc_local_punctuation(sentence);
    extend_errors(&mut errors, gc_punctuation_of_quotations(sentence));
    extend_errors(&mut errors, gc_repeating_words(sentence));
    extend_errors(&mut errors, gc_missing_verb(sentence, options));
    extend_errors(&mut errors, gc_negative_verb_mismatch(sentence));
    extend_errors(&mut errors, gc_compound_verb(sentence));
    extend_errors(&mut errors, gc_sidesana(sentence));
    errors
}

/// The Finnish rule engine: runs every grammar rule on a paragraph.
pub struct FinnishRuleEngine {
    options: GrammarOptions,
}

impl FinnishRuleEngine {
    /// The current settings.
    pub closed spec fn opts(&self) -> GrammarOptions {
        self.options
    }

    /// An engine with the given settings.
    pub fn new(options: GrammarOptions) -> (r: Self)
        ensures
            r.opts() == options,
    {
        FinnishRuleEngine { options }
    }

    /// Replace the settings.
    pub fn set_options(&mut self, options: GrammarOptions)
        ensures
            final(self).opts() == options,
    {
        self.options = options;
    }

    /// The current settings.
    pub fn options(&self) -> (r: &GrammarOptions)
        ensures
            *r == self.opts(),
    {
        &self.options
    }

    /// The errors of every rule on the paragraph: the sentence rules on each
    /// sentence in turn, then capitalization and end punctuation.
    pub fn check(&self, paragraph: &GrammarParagraph) -> (r: Vec<GrammarError>)
        requires
            paragraph_fits(*paragraph),
        ensures
            errors_view(r@) == paragraph_errors(*paragraph, self.opts()),
    {
        let ghost ss = paragraph.sentences@;
        let mut errors: Vec<GrammarError> = Vec::new();
        let mut k: usize = 0;
        assert(errors_view(errors@) =~= Seq::<ErrorView>::empty());
        while k < paragraph.sentences.len()
            invariant
                ss == paragraph.sentences@,
                paragraph_fits(*paragraph),
                k <= ss.len(),
                errors_view(errors@) == sentences_errors(ss, k as int, self.opts()),
            decreases paragraph.sentences.len() - k,
        {
            let sentence = &paragraph.sentences[k];
            assert(spans_fit(ss[k as int]) && windows_fit(ss[k as int].tokens@));
            extend_errors(&mut errors, check_sentence(sentence, &self.options));
            k += 1;
        }
        extend_errors(&mut errors, gc_capitalization(paragraph, &self.options));
        extend_errors(&mut errors, gc_end_punctuation(paragraph, &self.options));
        errors
    }
}

} // verus!
