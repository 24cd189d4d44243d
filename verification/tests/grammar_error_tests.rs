use voikko::grammar_error::{
    GrammarError, GCERR_EXTRA_MAIN_VERB, GCERR_EXTRA_WHITESPACE, GCERR_INVALID_SPELLING,
    GCERR_REPEATING_WORD,
};

#[test]
fn new_error() {
    let err = GrammarError::new(GCERR_INVALID_SPELLING, 5, 3);
    assert_eq!(err.error_code, 1);
    assert_eq!(err.start_pos, 5);
    assert_eq!(err.error_len, 3);
    assert!(err.suggestions.is_empty());
}

#[test]
fn error_with_suggestions() {
    let err = GrammarError::with_suggestions(
        GCERR_REPEATING_WORD,
        10,
        5,
        vec!["word".to_string()],
    );
    assert_eq!(err.error_code, GCERR_REPEATING_WORD);
    assert_eq!(err.suggestions.len(), 1);
    assert_eq!(err.suggestions[0], "word");
}

#[test]
fn default_error() {
    let err = GrammarError::default();
    assert_eq!(err.error_code, 0);
    assert_eq!(err.start_pos, 0);
    assert_eq!(err.error_len, 0);
    assert!(err.suggestions.is_empty());
}

#[test]
fn grammar_error_clone_is_independent() {
    let err = GrammarError::with_suggestions(
        GCERR_EXTRA_WHITESPACE,
        0,
        2,
        vec!["fix".to_string()],
    );
    let mut cloned = err.clone();
    cloned.suggestions.push("another".to_string());
    assert_eq!(err.suggestions.len(), 1);
    assert_eq!(cloned.suggestions.len(), 2);
}

#[test]
fn error_codes_match_cpp() {
    assert_eq!(GCERR_INVALID_SPELLING, 1);
    assert_eq!(GCERR_EXTRA_WHITESPACE, 2);
    assert_eq!(GCERR_REPEATING_WORD, 8);
    assert_eq!(GCERR_EXTRA_MAIN_VERB, 18);
}
