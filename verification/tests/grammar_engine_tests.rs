use voikko::grammar::checks::GrammarOptions;
use voikko::grammar::engine::FinnishRuleEngine;
use voikko::grammar::paragraph::{GrammarSentence, GrammarToken, Paragraph};

use voikko::enums::TokenType;
use voikko::grammar_error::{
    GCERR_EXTRA_WHITESPACE, GCERR_REPEATING_WORD, GCERR_TERMINATING_PUNCTUATION_MISSING,
    GCERR_WRITE_FIRST_UPPERCASE,
};


fn word(text: &str, pos: usize) -> GrammarToken {
    GrammarToken::new(TokenType::Word, text.chars().collect(), pos)
}

fn ws(text: &str, pos: usize) -> GrammarToken {
    GrammarToken::new(TokenType::Whitespace, text.chars().collect(), pos)
}

fn punct(text: &str, pos: usize) -> GrammarToken {
    GrammarToken::new(TokenType::Punctuation, text.chars().collect(), pos)
}

fn sentence(tokens: Vec<GrammarToken>, pos: usize) -> GrammarSentence {
    let mut s = GrammarSentence::new(pos);
    s.tokens = tokens;
    s
}

type GrammarParagraph = Paragraph;

#[test]
fn engine_detects_extra_whitespace() {
    let s = sentence(
        vec![word("Koira", 0), ws("  ", 5), word("kissa", 7), punct(".", 12)],
        0,
    );
    let p = GrammarParagraph {
        sentences: vec![s],
    };
    let engine = FinnishRuleEngine::new(GrammarOptions::default());
    let errs = engine.check(&p);
    assert!(errs.iter().any(|e| e.error_code == GCERR_EXTRA_WHITESPACE));
}

#[test]
fn engine_detects_repeating_word() {
    let s = sentence(
        vec![
            word("Koira", 0),
            ws(" ", 5),
            word("koira", 6),
            punct(".", 11),
        ],
        0,
    );
    let p = GrammarParagraph {
        sentences: vec![s],
    };
    let engine = FinnishRuleEngine::new(GrammarOptions::default());
    let errs = engine.check(&p);
    assert!(errs.iter().any(|e| e.error_code == GCERR_REPEATING_WORD));
}

#[test]
fn engine_detects_missing_end_punctuation() {
    let s1 = sentence(
        vec![word("Koira", 0), ws(" ", 5), word("juoksee", 6), punct(".", 13)],
        0,
    );
    let s2 = sentence(vec![word("Kissa", 15), ws(" ", 20), word("nukkuu", 21)], 15);
    let p = GrammarParagraph {
        sentences: vec![s1, s2],
    };
    let engine = FinnishRuleEngine::new(GrammarOptions::default());
    let errs = engine.check(&p);
    assert!(errs
        .iter()
        .any(|e| e.error_code == GCERR_TERMINATING_PUNCTUATION_MISSING));
}

#[test]
fn engine_detects_capitalization_error() {
    let mut w1 = word("koira", 0);
    w1.is_valid_word = true;
    w1.first_letter_lcase = true;
    let s = sentence(vec![w1, punct(".", 5)], 0);
    let p = GrammarParagraph {
        sentences: vec![s],
    };
    let engine = FinnishRuleEngine::new(GrammarOptions::default());
    let errs = engine.check(&p);
    assert!(errs
        .iter()
        .any(|e| e.error_code == GCERR_WRITE_FIRST_UPPERCASE));
}

#[test]
fn engine_empty_paragraph_no_errors() {
    let p = GrammarParagraph {
        sentences: vec![],
    };
    let engine = FinnishRuleEngine::new(GrammarOptions::default());
    let errs = engine.check(&p);
    assert!(errs.is_empty());
}

#[test]
fn engine_options_suppress_end_punctuation() {
    let s = sentence(vec![word("Otsikko", 0)], 0);
    let p = GrammarParagraph {
        sentences: vec![s],
    };
    let opts = GrammarOptions {
        accept_titles_in_gc: true,
        ..Default::default()
    };
    let engine = FinnishRuleEngine::new(opts);
    let errs = engine.check(&p);
    assert!(!errs
        .iter()
        .any(|e| e.error_code == GCERR_TERMINATING_PUNCTUATION_MISSING));
}

#[test]
fn engine_no_autocorrect_without_transducer() {
    let s = sentence(
        vec![word("Koira", 0), punct(".", 5)],
        0,
    );
    let p = GrammarParagraph {
        sentences: vec![s],
    };
    let engine = FinnishRuleEngine::new(GrammarOptions::default());
    let errs = engine.check(&p);
    // No GCERR_INVALID_SPELLING expected without a transducer
    assert!(!errs
        .iter()
        .any(|e| e.error_code == voikko::grammar_error::GCERR_INVALID_SPELLING));
}
