use voikko::enums::{SentenceType, TokenType};
use voikko::token::{Sentence, Token};

// -- Token tests --

#[test]
fn token_new() {
    let tok = Token::new(TokenType::Word, "koira", 0);
    assert_eq!(tok.token_type, TokenType::Word);
    assert_eq!(tok.text, "koira");
    assert_eq!(tok.token_len, 5);
    assert_eq!(tok.pos, 0);
}

#[test]
fn token_new_with_position() {
    let tok = Token::new(TokenType::Punctuation, ".", 10);
    assert_eq!(tok.token_type, TokenType::Punctuation);
    assert_eq!(tok.text, ".");
    assert_eq!(tok.token_len, 1);
    assert_eq!(tok.pos, 10);
}

#[test]
fn token_unicode_length() {
    // "äiti" is 4 characters, 5 bytes in UTF-8
    let tok = Token::new(TokenType::Word, "\u{00E4}iti", 0);
    assert_eq!(tok.token_len, 4); // character count, not byte count
}

#[test]
fn token_none() {
    let tok = Token::none();
    assert_eq!(tok.token_type, TokenType::EndOfText);
    assert!(tok.text.is_empty());
    assert_eq!(tok.token_len, 0);
    assert_eq!(tok.pos, 0);
}

#[test]
fn token_default_is_none() {
    let tok = Token::default();
    assert_eq!(tok.token_type, TokenType::EndOfText);
}

#[test]
fn token_clone() {
    let tok = Token::new(TokenType::Word, "koira", 0);
    let cloned = tok.clone();
    assert_eq!(tok, cloned);
}

// -- Sentence tests --

#[test]
fn sentence_new() {
    let s = Sentence::new(SentenceType::Probable, 42);
    assert_eq!(s.sentence_type, SentenceType::Probable);
    assert_eq!(s.sentence_len, 42);
}

#[test]
fn sentence_none() {
    let s = Sentence::none();
    assert_eq!(s.sentence_type, SentenceType::EndOfText);
    assert_eq!(s.sentence_len, 0);
}

#[test]
fn sentence_default_is_none() {
    let s = Sentence::default();
    assert_eq!(s.sentence_type, SentenceType::EndOfText);
}

#[test]
fn sentence_clone() {
    let s = Sentence::new(SentenceType::Possible, 15);
    let cloned = s.clone();
    assert_eq!(s, cloned);
}
