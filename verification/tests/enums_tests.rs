use voikko::enums::{
    SentenceType, SpellResult, TokenType, MAX_WORD_CHARS, OPT_ACCEPT_ALL_UPPERCASE,
    OPT_ACCEPT_FIRST_UPPERCASE, OPT_IGNORE_DOT, OPT_IGNORE_NONWORDS, OPT_IGNORE_NUMBERS,
    OPT_IGNORE_UPPERCASE, SPELLER_CACHE_SIZE,
};

#[test]
fn token_type_equality() {
    assert_eq!(TokenType::Word, TokenType::Word);
    assert_ne!(TokenType::Word, TokenType::Punctuation);
}

#[test]
fn sentence_type_equality() {
    assert_eq!(SentenceType::EndOfText, SentenceType::EndOfText);
    assert_ne!(SentenceType::Probable, SentenceType::Possible);
}

#[test]
fn spell_result_equality() {
    assert_eq!(SpellResult::Correct, SpellResult::Correct);
    assert_ne!(SpellResult::Correct, SpellResult::Failed);
}

#[test]
fn token_type_is_copy() {
    let a = TokenType::Word;
    let b = a; // Copy
    assert_eq!(a, b);
}

#[test]
fn option_constants_match_cpp() {
    // Verify a few key constants match the C++ defines
    assert_eq!(OPT_IGNORE_DOT, 0);
    assert_eq!(OPT_IGNORE_NUMBERS, 1);
    assert_eq!(OPT_IGNORE_UPPERCASE, 3);
    assert_eq!(OPT_ACCEPT_FIRST_UPPERCASE, 6);
    assert_eq!(OPT_ACCEPT_ALL_UPPERCASE, 7);
    assert_eq!(OPT_IGNORE_NONWORDS, 10);
    assert_eq!(SPELLER_CACHE_SIZE, 17);
    assert_eq!(MAX_WORD_CHARS, 255);
}
