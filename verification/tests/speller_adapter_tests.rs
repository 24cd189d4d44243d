use voikko::analysis::{Analysis, ATTR_STRUCTURE};
use voikko::enums::SpellResult;
use voikko::morphology::Analyzer;
use voikko::speller::adapter::AnalyzerToSpellerAdapter;
use voikko::speller::Speller;


/// A mock analyzer that returns predefined analyses for known words.
struct MockAnalyzer;

impl MockAnalyzer {
    fn make_analysis(structure: &str) -> Analysis {
        let mut a = Analysis::new();
        a.set(ATTR_STRUCTURE, structure);
        a
    }
}

impl Analyzer for MockAnalyzer {
    fn analyze(&self, word: &[char], _word_len: usize) -> Vec<Analysis> {
        let s: String = word.iter().collect();
        match s.as_str() {
            // "koira" — all lowercase noun
            "koira" => vec![Self::make_analysis("=ppppp")],
            // "helsinki" — proper noun (first letter should be uppercase)
            "helsinki" => vec![Self::make_analysis("=ippppppp")],
            // "iso-britannia" — compound with hyphen, multiple analyses
            "iso-britannia" => vec![
                Self::make_analysis("=ppp-=ippppppppp"),
                Self::make_analysis("=ppp-=pppppppppp"),
            ],
            // "abc" — abbreviation context
            "abc" => vec![Self::make_analysis("=jjj")],
            _ => vec![],
        }
    }
}

fn chars(s: &str) -> Vec<char> {
    s.chars().collect()
}

#[test]
fn known_lowercase_word_is_ok() {
    let analyzer = MockAnalyzer;
    let adapter = AnalyzerToSpellerAdapter::new(&analyzer);
    let word = chars("koira");
    assert_eq!(adapter.spell(&word, word.len()), SpellResult::Correct);
}

#[test]
fn unknown_word_returns_failed() {
    let analyzer = MockAnalyzer;
    let adapter = AnalyzerToSpellerAdapter::new(&analyzer);
    let word = chars("xyzzy");
    assert_eq!(adapter.spell(&word, word.len()), SpellResult::Failed);
}

#[test]
fn proper_noun_lowercase_returns_cap_first() {
    let analyzer = MockAnalyzer;
    let adapter = AnalyzerToSpellerAdapter::new(&analyzer);
    let word = chars("helsinki");
    assert_eq!(
        adapter.spell(&word, word.len()),
        SpellResult::CapitalizeFirst
    );
}

#[test]
fn multiple_analyses_picks_best_result() {
    // "iso-britannia" has two analyses: one expects 'i' (uppercase) for 'b',
    // one expects 'p' (lowercase). The 'p' version should yield Ok.
    let analyzer = MockAnalyzer;
    let adapter = AnalyzerToSpellerAdapter::new(&analyzer);
    let word = chars("iso-britannia");
    assert_eq!(adapter.spell(&word, word.len()), SpellResult::Correct);
}

#[test]
fn abbreviation_all_lowercase_where_uppercase_expected() {
    // "abc" with structure "=jjj" expects all uppercase.
    // Position 0: lowercase where j expected -> CapitalizeFirst.
    // Position 1: lowercase where j expected -> CapitalizationError (breaks).
    // Result: CapitalizationError.
    let analyzer = MockAnalyzer;
    let adapter = AnalyzerToSpellerAdapter::new(&analyzer);
    let word = chars("abc");
    assert_eq!(
        adapter.spell(&word, word.len()),
        SpellResult::CapitalizationError
    );
}

#[test]
fn empty_word_with_no_analyses_returns_failed() {
    let analyzer = MockAnalyzer;
    let adapter = AnalyzerToSpellerAdapter::new(&analyzer);
    assert_eq!(adapter.spell(&[], 0), SpellResult::Failed);
}
