use voikko::analysis::{Analysis, ATTR_BASEFORM, ATTR_STRUCTURE};
use voikko::enums::{SentenceType, TokenType};
use voikko::hyphenator::{FinnishHyphenator, HyphenatorOptions};
use voikko::morphology::Analyzer;
use voikko::readability::{count_hyphen_points, first_baseform_of, readability_counts};
use voikko::token::Token;

/// Knows "koira" and "lentokone", each its own base form.
#[derive(Clone, Copy)]
struct Lexicon;

impl Analyzer for Lexicon {
    fn analyze(&self, word: &[char], word_len: usize) -> Vec<Analysis> {
        let w: String = word[..word_len].iter().collect();
        let structure = match w.as_str() {
            "koira" => "=ppppp",
            "lentokone" => "=ppppppppp",
            _ => return Vec::new(),
        };
        let mut a = Analysis::new();
        a.set(ATTR_STRUCTURE, structure);
        a.set(ATTR_BASEFORM, &w);
        vec![a]
    }
}

fn tokens() -> Vec<Token> {
    vec![
        Token::new(TokenType::Word, "koira", 0),
        Token::new(TokenType::Whitespace, " ", 5),
        Token::new(TokenType::Word, "lentokone", 6),
        Token::new(TokenType::Punctuation, ".", 15),
        Token::new(TokenType::Whitespace, " ", 16),
        Token::new(TokenType::Word, "xyz", 17),
    ]
}

#[test]
fn readability_counts_of_a_small_text() {
    let hyp = FinnishHyphenator::new(Lexicon, HyphenatorOptions::default());
    let types = vec![
        SentenceType::Probable,
        SentenceType::NoStart,
        SentenceType::Possible,
        SentenceType::EndOfText,
    ];
    let c = readability_counts(&hyp, &Lexicon, &types, &tokens()).unwrap();
    assert_eq!(c.sentences, 2);
    assert_eq!(c.words, 3);
    assert_eq!(c.known_words, 2);
    // koi-ra, len-to-ko-ne, xyz
    assert_eq!(c.syllables, 2 + 4 + 1);
    assert_eq!(c.characters, 5 + 9 + 3);
    assert_eq!(c.punctuation, 1);
    assert_eq!(c.long_words, 1);
}

#[test]
fn readability_counts_of_no_text() {
    let hyp = FinnishHyphenator::new(Lexicon, HyphenatorOptions::default());
    let c = readability_counts(&hyp, &Lexicon, &[], &[]).unwrap();
    assert_eq!(
        (c.sentences, c.words, c.known_words, c.syllables, c.characters, c.punctuation, c.long_words),
        (0, 0, 0, 0, 0, 0, 0)
    );
}

#[test]
fn hyphen_points_are_the_marks_other_than_space() {
    let p: Vec<char> = "  -  = ".chars().collect();
    assert_eq!(count_hyphen_points(&p), 2);
    assert_eq!(count_hyphen_points(&[]), 0);
}

#[test]
fn the_first_analysis_with_a_base_form_gives_it() {
    let mut plain = Analysis::new();
    plain.set(ATTR_STRUCTURE, "=ppp");
    let mut with_base = Analysis::new();
    with_base.set(ATTR_BASEFORM, "talo");
    let mut second = Analysis::new();
    second.set(ATTR_BASEFORM, "toinen");
    assert_eq!(first_baseform_of(&vec![plain.clone(), with_base, second]), Some("talo"));
    assert_eq!(first_baseform_of(&vec![plain]), None);
}
