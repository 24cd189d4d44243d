//! Grammar checking: annotated paragraphs, the result cache, token
//! annotation from morphological analysis, and the Finnish rules.

pub mod paragraph;
pub mod cache;
pub mod finnish_analysis;
pub mod checks;
pub mod capitalization;
pub mod engine;
pub mod autocorrect;

use vstd::prelude::*;
use crate::grammar_error::GrammarError;

verus! {

/// A grammar checker: the errors found in a paragraph of text.
pub trait GrammarChecker {
    /// The grammar errors in the first `text_len` characters of `text`.
    fn check(&self, text: &[char], text_len: usize) -> Vec<GrammarError>;
}

} // verus!
