use voikko::enums::{SentenceType, TokenType};
use voikko::grammar::paragraph::{strip_soft_hyphens, FollowingVerbType, GrammarSentence, GrammarToken, Paragraph};


// -- GrammarToken tests --

#[test]
fn grammar_token_new_defaults() {
    let token = GrammarToken::new(TokenType::Word, vec!['k', 'o', 'i', 'r', 'a'], 0);
    assert_eq!(token.token_type, TokenType::Word);
    assert_eq!(token.text, vec!['k', 'o', 'i', 'r', 'a']);
    assert_eq!(token.pos, 0);
    assert_eq!(token.token_len(), 5);
    assert!(!token.is_valid_word);
    assert!(!token.first_letter_lcase);
    assert!(!token.possible_sentence_start);
    assert!(!token.is_geographical_name_in_genitive);
    assert!(!token.possible_geographical_name);
    assert!(!token.possible_main_verb);
    assert!(!token.is_main_verb);
    assert!(!token.is_verb_negative);
    assert!(!token.is_positive_verb);
    assert!(!token.is_conjunction);
    assert!(!token.possible_conjunction);
    assert_eq!(token.require_following_verb, FollowingVerbType::NoVerb);
    assert_eq!(token.verb_follower_type, FollowingVerbType::NoVerb);
}

#[test]
fn grammar_token_with_position() {
    let token = GrammarToken::new(TokenType::Punctuation, vec!['.'], 10);
    assert_eq!(token.pos, 10);
    assert_eq!(token.token_len(), 1);
}

// -- GrammarSentence tests --

#[test]
fn grammar_sentence_new() {
    let sentence = GrammarSentence::new(5);
    assert_eq!(sentence.pos, 5);
    assert!(sentence.tokens.is_empty());
    assert_eq!(sentence.sentence_type, SentenceType::EndOfText);
}

// -- Paragraph tests --

#[test]
fn paragraph_new() {
    let paragraph = Paragraph::new();
    assert!(paragraph.sentences.is_empty());
}

// -- FollowingVerbType tests --

#[test]
fn following_verb_type_equality() {
    assert_eq!(FollowingVerbType::NoVerb, FollowingVerbType::NoVerb);
    assert_ne!(FollowingVerbType::AInfinitive, FollowingVerbType::MaInfinitive);
}

// -- strip_soft_hyphens tests --

#[test]
fn strip_soft_hyphens_no_hyphens() {
    let text: Vec<char> = "koira".chars().collect();
    assert_eq!(strip_soft_hyphens(&text), text);
}

#[test]
fn strip_soft_hyphens_with_hyphens() {
    let text: Vec<char> = "koi\u{00AD}ra".chars().collect();
    let expected: Vec<char> = "koira".chars().collect();
    assert_eq!(strip_soft_hyphens(&text), expected);
}

#[test]
fn strip_soft_hyphens_only_hyphens() {
    let text: Vec<char> = "\u{00AD}\u{00AD}".chars().collect();
    assert!(strip_soft_hyphens(&text).is_empty());
}

#[test]
fn strip_soft_hyphens_empty() {
    assert!(strip_soft_hyphens(&[]).is_empty());
}

