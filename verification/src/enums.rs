//! Shared enums and option constants.

use vstd::prelude::*;

verus! {

/// Token types for string tokenization.
#[derive(Debug, Clone, Copy, PartialEq, Eq, Hash, Structural)]
pub enum TokenType {
    /// End of text or error.
    EndOfText,
    /// Word token.
    Word,
    /// Punctuation token.
    Punctuation,
    /// Whitespace token.
    Whitespace,
    /// Character not used in any supported natural language.
    Unknown,
}

/// Sentence start types for sentence detection.
#[derive(Debug, Clone, Copy, PartialEq, Eq, Hash, Structural)]
pub enum SentenceType {
    /// End of text reached or error.
    EndOfText,
    /// This is not a start of a new sentence.
    NoStart,
    /// This is a probable start of a new sentence.
    Probable,
    /// This may be a start of a new sentence.
    Possible,
}

/// Internal spell-checker result. The variants are ordered from the best
/// (`Correct`) to the worst (`Failed`).
#[derive(Debug, Clone, Copy, PartialEq, Eq, PartialOrd, Ord, Hash, Structural)]
pub enum SpellResult {
    /// Word is correctly spelled.
    Correct,
    /// Word is correct if the first letter is capitalized.
    CapitalizeFirst,
    /// Word has a capitalization error.
    CapitalizationError,
    /// Word is misspelled.
    Failed,
}

/// Position of a result in the order `Correct < CapitalizeFirst <
/// CapitalizationError < Failed`.
pub open spec fn spell_rank(r: SpellResult) -> int {
    match r {
        SpellResult::Correct => 0,
        SpellResult::CapitalizeFirst => 1,
        SpellResult::CapitalizationError => 2,
        SpellResult::Failed => 3,
    }
}

/// The rank of a spell result, as an integer (see `spell_rank`).
pub fn spell_result_rank(r: SpellResult) -> (n: u8)
    ensures
        n == spell_rank(r),
{
    match r {
        SpellResult::Correct => 0,
        SpellResult::CapitalizeFirst => 1,
        SpellResult::CapitalizationError => 2,
        SpellResult::Failed => 3,
    }
}

/// Maximum number of characters in a word.
pub const MAX_WORD_CHARS: usize = 255;

/// Ignore dot at the end of the word.
pub const OPT_IGNORE_DOT: i32 = 0;

/// Ignore words containing numbers.
pub const OPT_IGNORE_NUMBERS: i32 = 1;

/// Accept words written completely in uppercase without checking.
pub const OPT_IGNORE_UPPERCASE: i32 = 3;

/// Do not insert ugly but correct hyphenation positions.
pub const OPT_NO_UGLY_HYPHENATION: i32 = 4;

/// Accept words even when the first letter is uppercase.
pub const OPT_ACCEPT_FIRST_UPPERCASE: i32 = 6;

/// Accept words even when all letters are uppercase.
pub const OPT_ACCEPT_ALL_UPPERCASE: i32 = 7;

/// Use suggestions optimized for OCR software.
pub const OPT_OCR_SUGGESTIONS: i32 = 8;

/// Ignore non-words such as URLs and email addresses.
pub const OPT_IGNORE_NONWORDS: i32 = 10;

/// Allow some extra hyphens in words.
pub const OPT_ACCEPT_EXTRA_HYPHENS: i32 = 11;

/// Accept missing hyphens at the start and end of a word.
pub const OPT_ACCEPT_MISSING_HYPHENS: i32 = 12;

/// Accept incomplete sentences in titles.
pub const OPT_ACCEPT_TITLES_IN_GC: i32 = 13;

/// Accept incomplete sentences at the end of a paragraph.
pub const OPT_ACCEPT_UNFINISHED_PARAGRAPHS_IN_GC: i32 = 14;

/// Hyphenate unknown words.
pub const OPT_HYPHENATE_UNKNOWN_WORDS: i32 = 15;

/// Accept paragraphs valid within bulleted lists.
pub const OPT_ACCEPT_BULLETED_LISTS_IN_GC: i32 = 16;

/// Minimum length for words that may be hyphenated.
pub const MIN_HYPHENATED_WORD_LENGTH: i32 = 9;

/// Size of the spell checker cache.
pub const SPELLER_CACHE_SIZE: i32 = 17;

} // verus!
