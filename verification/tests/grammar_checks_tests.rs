use voikko::enums::TokenType;
use voikko::grammar::capitalization::gc_capitalization;
use voikko::grammar::checks::{
    gc_compound_verb, gc_end_punctuation, gc_local_punctuation, gc_missing_verb, gc_negative_verb_mismatch,
    gc_punctuation_of_quotations, gc_repeating_words, gc_sidesana, is_chapter_number, is_integer,
    is_possible_list_item, is_roman_numeral, GrammarOptions, GrammarParagraph,
};
use voikko::grammar::paragraph::{FollowingVerbType, GrammarSentence, GrammarToken};
use voikko::grammar_error::{
    GCERR_A_INFINITIVE_REQUIRED, GCERR_EXTRA_COMMA, GCERR_EXTRA_MAIN_VERB, GCERR_EXTRA_WHITESPACE, GCERR_FOREIGN_QUOTATION_MARK, GCERR_INVALID_PUNCTUATION_AT_END_OF_QUOTATION, GCERR_INVALID_SENTENCE_STARTER, GCERR_MA_INFINITIVE_REQUIRED, GCERR_MISPLACED_CLOSING_PARENTHESIS, GCERR_MISPLACED_SIDESANA, GCERR_MISSING_MAIN_VERB, GCERR_NEGATIVE_VERB_MISMATCH, GCERR_REPEATING_WORD, GCERR_SPACE_BEFORE_PUNCTUATION, GCERR_TERMINATING_PUNCTUATION_MISSING, GCERR_WRITE_FIRST_LOWERCASE, GCERR_WRITE_FIRST_UPPERCASE,
};

fn chars(s: &str) -> Vec<char> {
    s.chars().collect()
}


// -- Helper functions for building test token sequences --

fn word(text: &str, pos: usize) -> GrammarToken {
    GrammarToken::new(TokenType::Word, text.chars().collect(), pos)
}

fn ws(text: &str, pos: usize) -> GrammarToken {
    GrammarToken::new(TokenType::Whitespace, text.chars().collect(), pos)
}

fn punct(text: &str, pos: usize) -> GrammarToken {
    GrammarToken::new(TokenType::Punctuation, text.chars().collect(), pos)
}

fn sentence(tokens: Vec<GrammarToken>, pos: usize) -> GrammarSentence {
    let mut s = GrammarSentence::new(pos);
    s.tokens = tokens;
    s
}

fn default_opts() -> GrammarOptions {
    GrammarOptions::default()
}

// ---- gc_local_punctuation tests ----

#[test]
fn extra_whitespace() {
    let s = sentence(
        vec![
            word("koira", 0),
            ws("  ", 5),
            word("kissa", 7),
        ],
        0,
    );
    let errs = gc_local_punctuation(&s);
    assert_eq!(errs.len(), 1);
    assert_eq!(errs[0].error_code, GCERR_EXTRA_WHITESPACE);
    assert_eq!(errs[0].start_pos, 5);
    assert_eq!(errs[0].error_len, 2);
    assert_eq!(errs[0].suggestions, vec![" "]);
}

#[test]
fn space_before_comma() {
    let s = sentence(
        vec![
            word("koira", 0),
            ws(" ", 5),
            punct(",", 6),
        ],
        0,
    );
    let errs = gc_local_punctuation(&s);
    assert_eq!(errs.len(), 1);
    assert_eq!(errs[0].error_code, GCERR_SPACE_BEFORE_PUNCTUATION);
    assert_eq!(errs[0].start_pos, 5);
    assert_eq!(errs[0].error_len, 2);
}

#[test]
fn extra_comma() {
    let s = sentence(
        vec![
            word("koira", 0),
            punct(",", 5),
            punct(",", 6),
        ],
        0,
    );
    let errs = gc_local_punctuation(&s);
    assert_eq!(errs.len(), 1);
    assert_eq!(errs[0].error_code, GCERR_EXTRA_COMMA);
}

#[test]
fn invalid_sentence_starter_comma() {
    let s = sentence(
        vec![
            punct(",", 5),
            ws(" ", 6),
            word("koira", 7),
        ],
        5,
    );
    let errs = gc_local_punctuation(&s);
    assert_eq!(errs.len(), 1);
    assert_eq!(errs[0].error_code, GCERR_INVALID_SENTENCE_STARTER);
}

#[test]
fn valid_sentence_starter_open_paren() {
    let s = sentence(
        vec![
            punct("(", 0),
            word("koira", 1),
            punct(")", 6),
        ],
        0,
    );
    let errs = gc_local_punctuation(&s);
    assert!(errs.is_empty());
}

#[test]
fn no_punctuation_errors_normal_sentence() {
    let s = sentence(
        vec![
            word("Koira", 0),
            ws(" ", 5),
            word("juoksee", 6),
            punct(".", 13),
        ],
        0,
    );
    let errs = gc_local_punctuation(&s);
    assert!(errs.is_empty());
}

#[test]
fn skip_footnote_bracket() {
    let s = sentence(
        vec![
            punct("[", 0),
            word("2", 1),
            punct("]", 2),
            ws(" ", 3),
            word("koira", 4),
        ],
        0,
    );
    let errs = gc_local_punctuation(&s);
    assert!(errs.is_empty());
}

// ---- gc_punctuation_of_quotations tests ----

#[test]
fn foreign_quotation_mark() {
    let s = sentence(
        vec![
            punct("\u{201C}", 0),
            word("koira", 1),
            punct("\u{201D}", 6),
        ],
        0,
    );
    let errs = gc_punctuation_of_quotations(&s);
    assert_eq!(errs.len(), 1);
    assert_eq!(errs[0].error_code, GCERR_FOREIGN_QUOTATION_MARK);
}

#[test]
fn invalid_punctuation_at_end_of_quotation_dot() {
    // ."\u{201D},  ->  should be  \u{201D},
    let s = sentence(
        vec![
            word("koira", 0),
            punct(".", 5),
            punct("\u{201D}", 6),
            punct(",", 7),
        ],
        0,
    );
    let errs = gc_punctuation_of_quotations(&s);
    assert_eq!(errs.len(), 1);
    assert_eq!(
        errs[0].error_code,
        GCERR_INVALID_PUNCTUATION_AT_END_OF_QUOTATION
    );
    assert_eq!(errs[0].suggestions[0], "\u{201D},");
}

#[test]
fn invalid_punctuation_at_end_of_quotation_exclamation() {
    // !",  -> !"
    let s = sentence(
        vec![
            word("koira", 0),
            punct("!", 5),
            punct("\"", 6),
            punct(",", 7),
        ],
        0,
    );
    let errs = gc_punctuation_of_quotations(&s);
    assert_eq!(errs.len(), 1);
    assert_eq!(
        errs[0].error_code,
        GCERR_INVALID_PUNCTUATION_AT_END_OF_QUOTATION
    );
    assert_eq!(errs[0].suggestions[0], "!\"");
}

// ---- gc_repeating_words tests ----

#[test]
fn repeating_word_detected() {
    let s = sentence(
        vec![
            word("koira", 0),
            ws(" ", 5),
            word("koira", 6),
        ],
        0,
    );
    let errs = gc_repeating_words(&s);
    assert_eq!(errs.len(), 1);
    assert_eq!(errs[0].error_code, GCERR_REPEATING_WORD);
    assert_eq!(errs[0].start_pos, 0);
    assert_eq!(errs[0].error_len, 11);
    assert_eq!(errs[0].suggestions, vec!["koira"]);
}

#[test]
fn repeating_word_case_insensitive() {
    let s = sentence(
        vec![
            word("Koira", 0),
            ws(" ", 5),
            word("koira", 6),
        ],
        0,
    );
    let errs = gc_repeating_words(&s);
    assert_eq!(errs.len(), 1);
}

#[test]
fn repeating_word_exception_ollut() {
    let s = sentence(
        vec![
            word("ollut", 0),
            ws(" ", 5),
            word("ollut", 6),
        ],
        0,
    );
    let errs = gc_repeating_words(&s);
    assert!(errs.is_empty());
}

#[test]
fn repeating_word_exception_silla() {
    let s = sentence(
        vec![
            word("sill\u{00e4}", 0),
            ws(" ", 6),
            word("sill\u{00e4}", 7),
        ],
        0,
    );
    let errs = gc_repeating_words(&s);
    assert!(errs.is_empty());
}

#[test]
fn repeating_digit_word_not_flagged() {
    let s = sentence(
        vec![word("123", 0), ws(" ", 3), word("123", 4)],
        0,
    );
    let errs = gc_repeating_words(&s);
    assert!(errs.is_empty());
}

#[test]
fn different_words_not_flagged() {
    let s = sentence(
        vec![word("koira", 0), ws(" ", 5), word("kissa", 6)],
        0,
    );
    let errs = gc_repeating_words(&s);
    assert!(errs.is_empty());
}

// ---- gc_end_punctuation tests ----

#[test]
fn end_punctuation_missing() {
    let s = sentence(vec![word("koira", 0)], 0);
    let p = GrammarParagraph {
        sentences: vec![s.clone(), s],
    };
    let errs = gc_end_punctuation(&p, &default_opts());
    assert_eq!(errs.len(), 1);
    assert_eq!(errs[0].error_code, GCERR_TERMINATING_PUNCTUATION_MISSING);
}

#[test]
fn end_punctuation_present() {
    let s = sentence(
        vec![word("koira", 0), punct(".", 5)],
        0,
    );
    let p = GrammarParagraph {
        sentences: vec![s],
    };
    let errs = gc_end_punctuation(&p, &default_opts());
    assert!(errs.is_empty());
}

#[test]
fn end_punctuation_accept_titles() {
    let s = sentence(vec![word("Otsikko", 0)], 0);
    let p = GrammarParagraph {
        sentences: vec![s],
    };
    let opts = GrammarOptions {
        accept_titles_in_gc: true,
        ..Default::default()
    };
    let errs = gc_end_punctuation(&p, &opts);
    assert!(errs.is_empty());
}

#[test]
fn end_punctuation_accept_unfinished() {
    let s1 = sentence(vec![word("Koira", 0), punct(".", 5)], 0);
    let s2 = sentence(vec![word("Kissa", 7)], 7);
    let p = GrammarParagraph {
        sentences: vec![s1, s2],
    };
    let opts = GrammarOptions {
        accept_unfinished_paragraphs_in_gc: true,
        ..Default::default()
    };
    let errs = gc_end_punctuation(&p, &opts);
    assert!(errs.is_empty());
}

// ---- gc_missing_verb tests ----

#[test]
fn missing_verb_detected() {
    let mut w1 = word("Koira", 0);
    w1.is_valid_word = true;
    let mut w2 = word("suuri", 6);
    w2.is_valid_word = true;
    let s = sentence(
        vec![w1, ws(" ", 5), w2, punct(".", 11)],
        0,
    );
    let errs = gc_missing_verb(&s, &default_opts());
    assert_eq!(errs.len(), 1);
    assert_eq!(errs[0].error_code, GCERR_MISSING_MAIN_VERB);
}

#[test]
fn no_missing_verb_with_verb() {
    let mut w1 = word("Koira", 0);
    w1.is_valid_word = true;
    let mut w2 = word("juoksee", 6);
    w2.is_valid_word = true;
    w2.possible_main_verb = true;
    let s = sentence(
        vec![w1, ws(" ", 5), w2, punct(".", 13)],
        0,
    );
    let errs = gc_missing_verb(&s, &default_opts());
    assert!(errs.is_empty());
}

#[test]
fn no_missing_verb_single_word() {
    let mut w1 = word("Koira", 0);
    w1.is_valid_word = true;
    let s = sentence(vec![w1, punct(".", 5)], 0);
    let errs = gc_missing_verb(&s, &default_opts());
    assert!(errs.is_empty());
}

#[test]
fn no_missing_verb_unrecognized_word() {
    let w1 = word("Koira", 0); // is_valid_word = false
    let w2 = word("xyz", 6);
    let s = sentence(
        vec![w1, ws(" ", 5), w2, punct(".", 9)],
        0,
    );
    let errs = gc_missing_verb(&s, &default_opts());
    assert!(errs.is_empty());
}

#[test]
fn extra_main_verb_detected() {
    let mut w1 = word("Koira", 0);
    w1.is_valid_word = true;
    w1.is_main_verb = true;
    let mut w2 = word("juoksee", 6);
    w2.is_valid_word = true;
    w2.is_main_verb = true;
    let s = sentence(
        vec![w1, ws(" ", 5), w2, punct(".", 13)],
        0,
    );
    let errs = gc_missing_verb(&s, &default_opts());
    assert!(errs.iter().any(|e| e.error_code == GCERR_EXTRA_MAIN_VERB));
}

// ---- gc_negative_verb_mismatch tests ----

#[test]
fn negative_verb_mismatch() {
    let mut w1 = word("en", 0);
    w1.is_verb_negative = true;
    let mut w2 = word("sy\u{00f6}n", 3);
    w2.is_positive_verb = true;
    let s = sentence(vec![w1, ws(" ", 2), w2], 0);
    let errs = gc_negative_verb_mismatch(&s);
    assert_eq!(errs.len(), 1);
    assert_eq!(errs[0].error_code, GCERR_NEGATIVE_VERB_MISMATCH);
}

#[test]
fn no_negative_verb_mismatch() {
    let mut w1 = word("en", 0);
    w1.is_verb_negative = true;
    let w2 = word("sy\u{00f6}", 3); // not marked as positive verb
    let s = sentence(vec![w1, ws(" ", 2), w2], 0);
    let errs = gc_negative_verb_mismatch(&s);
    assert!(errs.is_empty());
}

// ---- gc_compound_verb tests ----

#[test]
fn a_infinitive_required() {
    let mut w1 = word("haluan", 0);
    w1.require_following_verb = FollowingVerbType::AInfinitive;
    let mut w2 = word("sy\u{00f6}m\u{00e4}\u{00e4}n", 7);
    w2.verb_follower_type = FollowingVerbType::MaInfinitive;
    let s = sentence(vec![w1, ws(" ", 6), w2], 0);
    let errs = gc_compound_verb(&s);
    assert_eq!(errs.len(), 1);
    assert_eq!(errs[0].error_code, GCERR_A_INFINITIVE_REQUIRED);
}

#[test]
fn ma_infinitive_required() {
    let mut w1 = word("menen", 0);
    w1.require_following_verb = FollowingVerbType::MaInfinitive;
    let mut w2 = word("sy\u{00f6}d\u{00e4}", 6);
    w2.verb_follower_type = FollowingVerbType::AInfinitive;
    let s = sentence(vec![w1, ws(" ", 5), w2], 0);
    let errs = gc_compound_verb(&s);
    assert_eq!(errs.len(), 1);
    assert_eq!(errs[0].error_code, GCERR_MA_INFINITIVE_REQUIRED);
}

#[test]
fn no_compound_verb_error_matching() {
    let mut w1 = word("haluan", 0);
    w1.require_following_verb = FollowingVerbType::AInfinitive;
    let mut w2 = word("sy\u{00f6}d\u{00e4}", 7);
    w2.verb_follower_type = FollowingVerbType::AInfinitive;
    let s = sentence(vec![w1, ws(" ", 6), w2], 0);
    let errs = gc_compound_verb(&s);
    assert!(errs.is_empty());
}

// ---- gc_sidesana tests ----

#[test]
fn misplaced_conjunction() {
    let mut w1 = word("koira", 0);
    w1.is_valid_word = true;
    let mut conj = word("ja", 6);
    conj.is_conjunction = true;
    let s = sentence(
        vec![w1, ws(" ", 5), conj, punct(".", 8)],
        0,
    );
    let errs = gc_sidesana(&s);
    assert_eq!(errs.len(), 1);
    assert_eq!(errs[0].error_code, GCERR_MISPLACED_SIDESANA);
}

#[test]
fn vaan_not_misplaced() {
    let mut conj = word("vaan", 0);
    conj.is_conjunction = true;
    let s = sentence(vec![conj, punct(".", 4)], 0);
    let errs = gc_sidesana(&s);
    assert!(errs.is_empty());
}

#[test]
fn conjunction_not_at_end_ok() {
    let mut conj = word("ja", 0);
    conj.is_conjunction = true;
    let s = sentence(
        vec![conj, ws(" ", 2), word("koira", 3), punct(".", 8)],
        0,
    );
    let errs = gc_sidesana(&s);
    assert!(errs.is_empty());
}

// ---- Utility function tests ----

#[test]
fn test_is_integer() {
    assert!(is_integer(&chars("123")));
    assert!(is_integer(&chars("0")));
    assert!(!is_integer(&chars("12a")));
    assert!(!is_integer(&chars("")));
}

#[test]
fn test_is_chapter_number() {
    assert!(is_chapter_number(&chars("3")));
    assert!(is_chapter_number(&chars("3.4")));
    assert!(is_chapter_number(&chars("3.65.3")));
    assert!(!is_chapter_number(&chars("3.")));
    assert!(!is_chapter_number(&chars(".3")));
    assert!(!is_chapter_number(&chars("3..4")));
    assert!(!is_chapter_number(&chars("abc")));
}

#[test]
fn test_is_roman_numeral() {
    assert!(is_roman_numeral(&chars("i")));
    assert!(is_roman_numeral(&chars("III")));
    assert!(is_roman_numeral(&chars("xVi")));
    assert!(!is_roman_numeral(&chars("abc")));
    assert!(!is_roman_numeral(&chars("")));
}

#[test]
fn test_is_possible_list_item() {
    assert!(is_possible_list_item(&chars("a")));
    assert!(is_possible_list_item(&chars("1")));
    assert!(is_possible_list_item(&chars("3.4")));
    assert!(is_possible_list_item(&chars("III")));
    assert!(!is_possible_list_item(&chars("abc")));
}

// ---- Capitalization check tests ----

#[test]
fn capitalization_uppercase_required() {
    let mut w1 = word("koira", 0);
    w1.is_valid_word = true;
    w1.first_letter_lcase = true;
    let s = sentence(vec![w1, punct(".", 5)], 0);
    let p = GrammarParagraph {
        sentences: vec![s],
    };
    let errs = gc_capitalization(&p, &default_opts());
    assert!(errs.iter().any(|e| e.error_code == GCERR_WRITE_FIRST_UPPERCASE));
}

#[test]
fn capitalization_no_error_uppercase() {
    let mut w1 = word("Koira", 0);
    w1.is_valid_word = true;
    w1.first_letter_lcase = true;
    let mut w2 = word("juoksee", 6);
    w2.is_valid_word = true;
    w2.first_letter_lcase = true;
    let s = sentence(
        vec![w1, ws(" ", 5), w2, punct(".", 13)],
        0,
    );
    let p = GrammarParagraph {
        sentences: vec![s],
    };
    let errs = gc_capitalization(&p, &default_opts());
    assert!(errs
        .iter()
        .all(|e| e.error_code != GCERR_WRITE_FIRST_UPPERCASE));
}

#[test]
fn capitalization_lowercase_required() {
    // Second word in sentence starts with uppercase but should be lowercase
    let mut w1 = word("Koira", 0);
    w1.is_valid_word = true;
    w1.first_letter_lcase = true;
    let mut w2 = word("Juoksee", 6);
    w2.is_valid_word = true;
    w2.first_letter_lcase = true;
    // token_len() returns text.len(), which is already 7 for "Juoksee"
    let s = sentence(
        vec![w1, ws(" ", 5), w2, punct(".", 13)],
        0,
    );
    let p = GrammarParagraph {
        sentences: vec![s],
    };
    let errs = gc_capitalization(&p, &default_opts());
    assert!(errs
        .iter()
        .any(|e| e.error_code == GCERR_WRITE_FIRST_LOWERCASE));
}

#[test]
fn capitalization_misplaced_closing_parenthesis() {
    let s = sentence(
        vec![
            word("Koira", 0),
            ws(" ", 5),
            punct(")", 6),
            ws(" ", 7),
            word("kissa", 8),
        ],
        0,
    );
    let p = GrammarParagraph {
        sentences: vec![s],
    };
    let errs = gc_capitalization(&p, &default_opts());
    assert!(errs
        .iter()
        .any(|e| e.error_code == GCERR_MISPLACED_CLOSING_PARENTHESIS));
}
