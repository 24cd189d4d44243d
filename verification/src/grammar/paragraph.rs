//! Paragraphs of sentences of tokens, annotated for the grammar rules.

use vstd::prelude::*;
use crate::enums::{SentenceType, TokenType};
use crate::text::{SOFT_HYPHEN, without_soft_hyphens};

verus! {

/// Most sentences in one paragraph.
pub const MAX_SENTENCES_IN_PARAGRAPH: usize = 200;

/// Most tokens in one sentence.
pub const MAX_TOKENS_IN_SENTENCE: usize = 500;

/// The kind of infinitive in a compound verb construct.
#[derive(Debug, Clone, Copy, PartialEq, Eq, Structural)]
pub enum FollowingVerbType {
    /// Not a verb, or no requirement.
    NoVerb,
    /// Requires, or is, an A-infinitive.
    AInfinitive,
    /// Requires, or is, a MA-infinitive.
    MaInfinitive,
}

/// A token with the flags that the grammar rules read.
#[derive(Debug, Clone)]
pub struct GrammarToken {
    /// Word, punctuation, whitespace, ...
    pub token_type: TokenType,
    /// The characters of the token.
    pub text: Vec<char>,
    /// Character offset of the token in the paragraph.
    pub pos: usize,
    /// The word was recognized.
    pub is_valid_word: bool,
    /// The word should start with a lower-case letter.
    pub first_letter_lcase: bool,
    /// The word may be the first of a sentence.
    pub possible_sentence_start: bool,
    /// The word may be a geographical name in the genitive.
    pub is_geographical_name_in_genitive: bool,
    /// The word may be a geographical name.
    pub possible_geographical_name: bool,
    /// The word may be the main verb.
    pub possible_main_verb: bool,
    /// The word is the main verb (indicative in every reading).
    pub is_main_verb: bool,
    /// The word is a negative verb ("en", "et", "ei", ...).
    pub is_verb_negative: bool,
    /// The word can only be a positive verb.
    pub is_positive_verb: bool,
    /// The word is a conjunction.
    pub is_conjunction: bool,
    /// The word may be a conjunction.
    pub possible_conjunction: bool,
    /// The infinitive that must follow this verb.
    pub require_following_verb: FollowingVerbType,
    /// The infinitive that this word is when it follows a verb.
    pub verb_follower_type: FollowingVerbType,
}

impl GrammarToken {
    /// A token with every flag cleared.
    pub fn new(token_type: TokenType, text: Vec<char>, pos: usize) -> (r: Self)
        ensures
            r.token_type == token_type,
            r.text == text,
            r.pos == pos,
            !r.is_valid_word,
            !r.first_letter_lcase,
            !r.possible_sentence_start,
            !r.is_geographical_name_in_genitive,
            !r.possible_geographical_name,
            !r.possible_main_verb,
            !r.is_main_verb,
            !r.is_verb_negative,
            !r.is_positive_verb,
            !r.is_conjunction,
            !r.possible_conjunction,
            r.require_following_verb == FollowingVerbType::NoVerb,
            r.verb_follower_type == FollowingVerbType::NoVerb,
    {
        GrammarToken {
            token_type,
            text,
            pos,
            is_valid_word: false,
            first_letter_lcase: false,
            possible_sentence_start: false,
            is_geographical_name_in_genitive: false,
            possible_geographical_name: false,
            possible_main_verb: false,
            is_main_verb: false,
            is_verb_negative: false,
            is_positive_verb: false,
            is_conjunction: false,
            possible_conjunction: false,
            require_following_verb: FollowingVerbType::NoVerb,
            verb_follower_type: FollowingVerbType::NoVerb,
        }
    }

    /// Number of characters in the token.
    pub fn token_len(&self) -> (r: usize)
        ensures
            r == self.text@.len(),
    {
        self.text.len()
    }
}

/// A sentence of annotated tokens.
#[derive(Debug, Clone)]
pub struct GrammarSentence {
    /// How the next sentence starts.
    pub sentence_type: SentenceType,
    /// The tokens of the sentence.
    pub tokens: Vec<GrammarToken>,
    /// Character offset of the sentence in the paragraph.
    pub pos: usize,
}

impl GrammarSentence {
    /// An empty sentence at the given offset.
    pub fn new(pos: usize) -> (r: Self)
        ensures
            r.sentence_type == SentenceType::EndOfText,
            r.tokens@.len() == 0,
            r.pos == pos,
    {
        GrammarSentence { sentence_type: SentenceType::EndOfText, tokens: Vec::new(), pos }
    }
}

/// A paragraph of annotated sentences.
#[derive(Debug, Clone)]
pub struct Paragraph {
    /// The sentences of the paragraph.
    pub sentences: Vec<GrammarSentence>,
}

impl Paragraph {
    /// A paragraph with no sentences.
    pub fn new() -> (r: Self)
        ensures
            r.sentences@.len() == 0,
    {
        Paragraph { sentences: Vec::new() }
    }
}

/// The text without its soft hyphens, which the analyzer does not know.
pub fn strip_soft_hyphens(text: &[char]) -> (r: Vec<char>)
    ensures
        r@ == without_soft_hyphens(text@),
{
    let mut r: Vec<char> = Vec::new();
    let mut i: usize = 0;
    while i < text.len()
        invariant
            i <= text@.len(),
            r@ == without_soft_hyphens(text@.take(i as int)),
        decreases text.len() - i,
    {
        let c = text[i];
        proof {
            assert(text@.take(i + 1).drop_last() =~= text@.take(i as int));
        }
        if c != SOFT_HYPHEN {
            r.push(c);
        }
        i += 1;
    }
    proof {
        assert(text@.take(text@.len() as int) =~= text@);
    }
    r
}

} // verus!
