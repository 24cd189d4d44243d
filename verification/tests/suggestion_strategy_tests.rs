use voikko::enums::SpellResult;
use voikko::speller::Speller;
use voikko::suggestion::status::SuggestionStatus;
use voikko::suggestion::strategy::{default_ocr_strategy, default_typing_strategy, typing_strategy};


/// A mock speller that accepts a predefined set of words.
struct MockSpeller {
    accepted: Vec<String>,
}

impl MockSpeller {
    fn new(words: &[&str]) -> Self {
        Self {
            accepted: words.iter().map(|s| s.to_string()).collect(),
        }
    }
}

impl Speller for MockSpeller {
    fn spell(&self, word: &[char], word_len: usize) -> SpellResult {
        let s: String = word[..word_len].iter().collect();
        if self.accepted.contains(&s) {
            SpellResult::Correct
        } else {
            SpellResult::Failed
        }
    }
}

fn chars(s: &str) -> Vec<char> {
    s.chars().collect()
}

#[test]
fn typing_strategy_primary_short_circuits() {
    // If CaseChange finds the word, secondaries should not run.
    let speller = MockSpeller::new(&["koira"]);
    let word = chars("koira");
    let mut status = SuggestionStatus::new(&word, 5);
    let strategy = default_typing_strategy();
    strategy.generate(&speller, &mut status);
    assert_eq!(status.suggestion_count(), 1);
    assert_eq!(status.suggestions()[0].word, "koira");
}

#[test]
fn typing_strategy_deletion() {
    // "koiraa" -> delete 'a' -> "koira"
    let speller = MockSpeller::new(&["koira"]);
    let word = chars("koiraa");
    let mut status = SuggestionStatus::new(&word, 5);
    let strategy = default_typing_strategy();
    strategy.generate(&speller, &mut status);
    assert!(status.suggestion_count() >= 1);
    assert!(status.suggestions().iter().any(|s| s.word == "koira"));
}

#[test]
fn typing_strategy_swap() {
    // "kiora" -> swap 'i' and 'o' -> "koira"
    let speller = MockSpeller::new(&["koira"]);
    let word = chars("kiora");
    let mut status = SuggestionStatus::new(&word, 5);
    let strategy = default_typing_strategy();
    strategy.generate(&speller, &mut status);
    assert!(status.suggestion_count() >= 1);
    assert!(status.suggestions().iter().any(|s| s.word == "koira"));
}

#[test]
fn typing_strategy_split_word() {
    let speller = MockSpeller::new(&["koira", "kissa"]);
    let word = chars("koirakissa");
    let mut status = SuggestionStatus::new(&word, 5);
    let strategy = default_typing_strategy();
    strategy.generate(&speller, &mut status);
    assert!(status.suggestion_count() >= 1);
    assert!(status
        .suggestions()
        .iter()
        .any(|s| s.word == "koira kissa"));
}

#[test]
fn ocr_strategy_replacement() {
    // OCR: '0' -> 'o'
    let speller = MockSpeller::new(&["koira"]);
    let word = chars("k0ira");
    let mut status = SuggestionStatus::new(&word, 5);
    let strategy = default_ocr_strategy();
    strategy.generate(&speller, &mut status);
    assert!(status.suggestion_count() >= 1);
    assert!(status.suggestions().iter().any(|s| s.word == "koira"));
}

#[test]
fn strategy_respects_max_suggestions() {
    let speller = MockSpeller::new(&["a", "b", "c", "d", "e"]);
    let word = chars("x");
    let mut status = SuggestionStatus::new(&word, 2);
    let strategy = default_typing_strategy();
    strategy.generate(&speller, &mut status);
    assert!(status.suggestion_count() <= 2);
}

#[test]
fn strategy_cost_budget_limits_work() {
    // With a very small budget, the strategy should abort quickly
    let speller = MockSpeller::new(&["koira"]);
    let word = chars("xyzzyxyzzy"); // long unknown word
    let mut status = SuggestionStatus::new(&word, 5);
    let strategy = typing_strategy(1); // very small budget
    strategy.generate(&speller, &mut status);
    // Should not run forever -- just verify it terminates
}

#[test]
fn typing_strategy_has_correct_generator_counts() {
    let strategy = default_typing_strategy();
    assert_eq!(strategy.primary_generators().len(), 2);
    assert_eq!(strategy.generators().len(), 17);
}

#[test]
fn ocr_strategy_has_correct_generator_counts() {
    let strategy = default_ocr_strategy();
    assert_eq!(strategy.primary_generators().len(), 1);
    assert_eq!(strategy.generators().len(), 2);
}
