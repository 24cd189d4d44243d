//! Token and sentence result types.

use vstd::prelude::*;
use crate::enums::{SentenceType, TokenType};

verus! {

/// A text token.
#[derive(Debug, Clone, PartialEq, Eq)]
pub struct Token {
    /// The type of this token.
    pub token_type: TokenType,
    /// The text content of this token.
    pub text: String,
    /// Length of the token in characters.
    pub token_len: usize,
    /// Position of this token within the paragraph (character offset).
    pub pos: usize,
}

impl Token {
    /// Create a new token; its length is the number of characters in `text`.
    pub fn new(token_type: TokenType, text: &str, pos: usize) -> (r: Self)
        ensures
            r.token_type == token_type,
            r.text@ == text@,
            r.token_len == text@.len(),
            r.pos == pos,
    {
        let token_len = text.unicode_len();
        Token { token_type, text: String::from_str(text), token_len, pos }
    }

    /// An empty end-of-text token at position 0.
    pub fn none() -> (r: Self)
        ensures
            r.token_type == TokenType::EndOfText,
            r.text@.len() == 0,
            r.token_len == 0,
            r.pos == 0,
    {
        Token { token_type: TokenType::EndOfText, text: String::new(), token_len: 0, pos: 0 }
    }
}

impl Default for Token {
    fn default() -> (r: Self)
        ensures
            r.token_type == TokenType::EndOfText,
            r.text@.len() == 0,
            r.token_len == 0,
            r.pos == 0,
    {
        Self::none()
    }
}

/// Result of sentence boundary detection.
#[derive(Debug, Clone, PartialEq, Eq)]
pub struct Sentence {
    /// The type of sentence boundary detected.
    pub sentence_type: SentenceType,
    /// Length of the sentence in characters.
    pub sentence_len: usize,
}

impl Sentence {
    /// Create a new sentence result.
    pub fn new(sentence_type: SentenceType, sentence_len: usize) -> (r: Self)
        ensures
            r.sentence_type == sentence_type,
            r.sentence_len == sentence_len,
    {
        Sentence { sentence_type, sentence_len }
    }

    /// The end-of-text sentence result.
    pub fn none() -> (r: Self)
        ensures
            r.sentence_type == SentenceType::EndOfText,
            r.sentence_len == 0,
    {
        Sentence { sentence_type: SentenceType::EndOfText, sentence_len: 0 }
    }
}

impl Default for Sentence {
    fn default() -> (r: Self)
        ensures
            r.sentence_type == SentenceType::EndOfText,
            r.sentence_len == 0,
    {
        Self::none()
    }
}

} // verus!
