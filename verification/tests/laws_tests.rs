use voikko::analysis::{Analysis, ATTR_STRUCTURE};
use voikko::enums::TokenType;
use voikko::grammar::cache::GcCache;
use voikko::grammar::capitalization::gc_capitalization;
use voikko::grammar::checks::{
    gc_compound_verb, gc_end_punctuation, gc_local_punctuation, gc_missing_verb, gc_negative_verb_mismatch,
    gc_punctuation_of_quotations, gc_repeating_words, gc_sidesana, GrammarOptions,
};
use voikko::grammar::engine::FinnishRuleEngine;
use voikko::grammar::paragraph::{strip_soft_hyphens, GrammarSentence, GrammarToken, Paragraph};
use voikko::grammar_error::GrammarError;
use voikko::hyphenator::buffers::{intersect_hyphenations, remove_extra_hyphenations, union_hyphenations};
use voikko::hyphenator::{FinnishHyphenator, Hyphenator, HyphenatorOptions};
use voikko::morphology::Analyzer;

struct TwoReadings;

impl Analyzer for TwoReadings {
    fn analyze(&self, word: &[char], _word_len: usize) -> Vec<Analysis> {
        let w: String = word.iter().collect();
        if w == "koiranruoka" {
            let mut a = Analysis::new();
            a.set(ATTR_STRUCTURE, "=pppppp=ppppp");
            let mut b = Analysis::new();
            b.set(ATTR_STRUCTURE, "=pp=ppppppppp");
            vec![a, b]
        } else {
            Vec::new()
        }
    }
}

fn word(text: &str, pos: usize) -> GrammarToken {
    GrammarToken::new(TokenType::Word, text.chars().collect(), pos)
}

fn ws(text: &str, pos: usize) -> GrammarToken {
    GrammarToken::new(TokenType::Whitespace, text.chars().collect(), pos)
}

fn punct(text: &str, pos: usize) -> GrammarToken {
    GrammarToken::new(TokenType::Punctuation, text.chars().collect(), pos)
}

fn sentence(tokens: Vec<GrammarToken>, pos: usize) -> GrammarSentence {
    let mut s = GrammarSentence::new(pos);
    s.tokens = tokens;
    s
}

#[test]
fn law_hyphenation_has_one_mark_per_character() {
    let hyp = FinnishHyphenator::new(TwoReadings, HyphenatorOptions::default());
    for w in ["koiranruoka", "kissa", "a", "", "maa-ala"] {
        let chars: Vec<char> = w.chars().collect();
        assert_eq!(hyp.hyphenate(&chars).chars().count(), chars.len());
        assert_eq!(hyp.all_possible_hyphen_positions(&chars).chars().count(), chars.len());
    }
}

#[test]
fn law_hyphenate_breaks_are_possible_breaks() {
    let hyp = FinnishHyphenator::new(TwoReadings, HyphenatorOptions::default());
    let chars: Vec<char> = "koiranruoka".chars().collect();
    let strict: Vec<char> = hyp.hyphenate(&chars).chars().collect();
    let all: Vec<char> = hyp.all_possible_hyphen_positions(&chars).chars().collect();
    assert_eq!(strict.len(), all.len());
    for i in 0..strict.len() {
        if strict[i] != ' ' {
            assert!(all[i] != ' ');
        }
    }
    assert_eq!(strict[2], ' ');
    assert_eq!(all[2], '-');
}

#[test]
fn law_intersection_within_union() {
    let buffers = vec![vec![b' ', b'-', b'X', b'-', b'='], vec![b'-', b'-', b' ', b' ', b'=']];
    let inter: Vec<char> = intersect_hyphenations(&buffers).chars().collect();
    let uni: Vec<char> = union_hyphenations(&buffers).chars().collect();
    assert_eq!(inter, vec![' ', '-', ' ', ' ', '=']);
    assert_eq!(uni, vec![' ', '-', ' ', '-', '=']);
    for i in 0..inter.len() {
        if inter[i] != ' ' {
            assert!(uni[i] != ' ');
        }
    }
}

#[test]
fn law_pruning_keeps_a_reading_with_fewest_parts() {
    let mut buffers = vec![
        vec![b'-', b' ', b'-', b' '],
        vec![b' ', b'X', b' ', b' '],
        vec![b' ', b'-', b' ', b' '],
    ];
    remove_extra_hyphenations(&mut buffers, 4);
    assert_eq!(buffers, vec![vec![b' ', b'X', b' ', b' ']]);
}

#[test]
fn law_cache_gives_back_what_was_stored() {
    let mut cache = GcCache::new();
    let text: Vec<char> = "Koira juoksi.".chars().collect();
    let other: Vec<char> = "Kissa.".chars().collect();
    cache.store_cache(
        &text,
        vec![GrammarError::new(1, 9, 1), GrammarError::new(2, 3, 1), GrammarError::new(3, 9, 2)],
    );
    let errs = cache.check_cache(&text).unwrap();
    let order: Vec<(i32, usize)> = errs.iter().map(|e| (e.error_code, e.start_pos)).collect();
    assert_eq!(order, vec![(2, 3), (1, 9), (3, 9)]);
    assert!(cache.check_cache(&other).is_none());
    cache.append_error(GrammarError::new(4, 9, 5));
    let errs = cache.check_cache(&text).unwrap();
    let order: Vec<(i32, usize)> = errs.iter().map(|e| (e.error_code, e.start_pos)).collect();
    assert_eq!(order, vec![(2, 3), (1, 9), (3, 9), (4, 9)]);
}

#[test]
fn law_stripped_text_has_no_soft_hyphen() {
    let text: Vec<char> = "\u{AD}koi\u{AD}\u{AD}ra\u{AD}".chars().collect();
    let stripped = strip_soft_hyphens(&text);
    assert!(!stripped.contains(&'\u{AD}'));
    assert_eq!(stripped, "koira".chars().collect::<Vec<char>>());
    assert_eq!(strip_soft_hyphens(&stripped), stripped);
}

#[test]
fn law_upper_case_paragraph_gets_no_capitalization_errors() {
    let mut w = word("KOIRA", 0);
    w.is_valid_word = true;
    w.first_letter_lcase = true;
    let mut w2 = word("JUOKSEE", 6);
    w2.is_valid_word = true;
    w2.first_letter_lcase = true;
    let p = Paragraph { sentences: vec![sentence(vec![w, ws(" ", 5), w2, punct(")", 13)], 0)] };
    assert!(gc_capitalization(&p, &GrammarOptions::default()).is_empty());
}

#[test]
fn law_analysis_get_after_set_and_remove() {
    let mut a = Analysis::new();
    a.set("CLASS", "nimisana");
    a.set("SIJAMUOTO", "nimento");
    a.set("CLASS", "teonsana");
    assert_eq!(a.get("CLASS"), Some("teonsana"));
    assert_eq!(a.get("SIJAMUOTO"), Some("nimento"));
    a.remove("CLASS");
    assert_eq!(a.get("CLASS"), None);
    assert_eq!(a.get("SIJAMUOTO"), Some("nimento"));
    assert_eq!(a.len(), 1);
}

#[test]
fn law_engine_runs_every_rule_in_order() {
    let s1 = sentence(
        vec![word("koira", 0), ws("  ", 5), word("koira", 7), punct(",", 12), punct(",", 13)],
        0,
    );
    let s2 = sentence(vec![word("Kissa", 15), ws(" ", 20), word("nukkuu", 21)], 15);
    let p = Paragraph { sentences: vec![s1, s2] };
    let opts = GrammarOptions::default();
    let mut expected: Vec<GrammarError> = Vec::new();
    for s in &p.sentences {
        expected.extend(gc_local_punctuation(s));
        expected.extend(gc_punctuation_of_quotations(s));
        expected.extend(gc_repeating_words(s));
        expected.extend(gc_missing_verb(s, &opts));
        expected.extend(gc_negative_verb_mismatch(s));
        expected.extend(gc_compound_verb(s));
        expected.extend(gc_sidesana(s));
    }
    expected.extend(gc_capitalization(&p, &opts));
    expected.extend(gc_end_punctuation(&p, &opts));
    let engine = FinnishRuleEngine::new(opts);
    let got = engine.check(&p);
    assert_eq!(got, expected);
    assert!(!got.is_empty());
}

#[test]
fn law_hyphenation_uses_only_space_hyphen_and_equals() {
    let hyp = FinnishHyphenator::new(TwoReadings, HyphenatorOptions::default());
    for w in ["koiranruoka", "kissa", "maa-ala", "rock'n'roll", "xyz", "a"] {
        let chars: Vec<char> = w.chars().collect();
        for pattern in [hyp.hyphenate(&chars), hyp.all_possible_hyphen_positions(&chars)] {
            assert!(pattern.chars().all(|c| c == ' ' || c == '-' || c == '='), "{}: {:?}", w, pattern);
        }
    }
}
