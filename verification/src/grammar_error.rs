//! Grammar error type and error codes.

use vstd::prelude::*;

verus! {

pub const GCERR_INVALID_SPELLING: i32 = 1;
pub const GCERR_EXTRA_WHITESPACE: i32 = 2;
pub const GCERR_SPACE_BEFORE_PUNCTUATION: i32 = 3;
pub const GCERR_EXTRA_COMMA: i32 = 4;
pub const GCERR_INVALID_SENTENCE_STARTER: i32 = 5;
pub const GCERR_WRITE_FIRST_LOWERCASE: i32 = 6;
pub const GCERR_WRITE_FIRST_UPPERCASE: i32 = 7;
pub const GCERR_REPEATING_WORD: i32 = 8;
pub const GCERR_TERMINATING_PUNCTUATION_MISSING: i32 = 9;
pub const GCERR_INVALID_PUNCTUATION_AT_END_OF_QUOTATION: i32 = 10;
pub const GCERR_FOREIGN_QUOTATION_MARK: i32 = 11;
pub const GCERR_MISPLACED_CLOSING_PARENTHESIS: i32 = 12;
pub const GCERR_NEGATIVE_VERB_MISMATCH: i32 = 13;
pub const GCERR_A_INFINITIVE_REQUIRED: i32 = 14;
pub const GCERR_MA_INFINITIVE_REQUIRED: i32 = 15;
pub const GCERR_MISPLACED_SIDESANA: i32 = 16;
pub const GCERR_MISSING_MAIN_VERB: i32 = 17;
pub const GCERR_EXTRA_MAIN_VERB: i32 = 18;

/// A grammar error as plain values: code, start, length, and the
/// characters of each suggestion.
pub open spec fn error_view(e: GrammarError) -> (i32, int, int, Seq<Seq<char>>) {
    (e.error_code, e.start_pos as int, e.error_len as int, e.suggestions@.map_values(|s: String| s@))
}

/// A list of grammar errors as plain values.
pub open spec fn errors_view(v: Seq<GrammarError>) -> Seq<(i32, int, int, Seq<Seq<char>>)> {
    v.map_values(|e: GrammarError| error_view(e))
}

/// A grammar error detected during grammar checking.
#[derive(Debug, Clone, PartialEq, Eq)]
pub struct GrammarError {
    /// Error code. 0 means no error was found.
    pub error_code: i32,
    /// Start position of the error in the text (character offset).
    pub start_pos: usize,
    /// Length of the erroneous span in characters.
    pub error_len: usize,
    /// Suggested corrections for the error.
    pub suggestions: Vec<String>,
}

impl GrammarError {
    /// Create a new grammar error with no suggestions.
    pub fn new(error_code: i32, start_pos: usize, error_len: usize) -> (r: Self)
        ensures
            r.error_code == error_code,
            r.start_pos == start_pos,
            r.error_len == error_len,
            r.suggestions@.len() == 0,
            error_view(r) == (error_code, start_pos as int, error_len as int, Seq::<Seq<char>>::empty()),
    {
        let r = GrammarError { error_code, start_pos, error_len, suggestions: Vec::new() };
        assert(error_view(r).3 =~= Seq::<Seq<char>>::empty());
        r
    }

    /// Create a new grammar error with suggestions.
    pub fn with_suggestions(
        error_code: i32,
        start_pos: usize,
        error_len: usize,
        suggestions: Vec<String>,
    ) -> (r: Self)
        ensures
            r.error_code == error_code,
            r.start_pos == start_pos,
            r.error_len == error_len,
            r.suggestions == suggestions,
    {
        GrammarError { error_code, start_pos, error_len, suggestions }
    }
}

impl Default for GrammarError {
    /// A grammar error with code 0 (no error).
    fn default() -> (r: Self)
        ensures
            r.error_code == 0,
            r.start_pos == 0,
            r.error_len == 0,
            r.suggestions@.len() == 0,
    {
        GrammarError { error_code: 0, start_pos: 0, error_len: 0, suggestions: Vec::new() }
    }
}

} // verus!
