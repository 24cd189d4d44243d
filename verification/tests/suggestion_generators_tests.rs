use voikko::enums::SpellResult;
use voikko::speller::Speller;
use voikko::suggestion::generators::{
    CaseChange, DeleteTwo, Deletion, InsertSpecial, Insertion, MultiReplacement, ReplaceTwo,
    Replacement, SoftHyphens, SplitWord, SuggestionGenerator, Swap, VowelChange,
};
use voikko::suggestion::status::SuggestionStatus;


/// A mock speller that accepts a predefined set of words.
struct MockSpeller {
    accepted: Vec<String>,
}

impl MockSpeller {
    fn new(words: &[&str]) -> Self {
        Self {
            accepted: words.iter().map(|s| s.to_string()).collect(),
        }
    }
}

impl Speller for MockSpeller {
    fn spell(&self, word: &[char], word_len: usize) -> SpellResult {
        let s: String = word[..word_len].iter().collect();
        if self.accepted.contains(&s) {
            SpellResult::Correct
        } else {
            SpellResult::Failed
        }
    }
}

fn chars(s: &str) -> Vec<char> {
    s.chars().collect()
}

// --- CaseChange ---

#[test]
fn case_change_finds_correct_word() {
    let speller = MockSpeller::new(&["koira"]);
    let word = chars("koira");
    let mut status = SuggestionStatus::new(&word, 5);
    status.set_max_cost(100);
    CaseChange.generate(&speller, &mut status);
    assert_eq!(status.suggestion_count(), 1);
    assert_eq!(status.suggestions()[0].word, "koira");
}

#[test]
fn case_change_no_match() {
    let speller = MockSpeller::new(&["kissa"]);
    let word = chars("koira");
    let mut status = SuggestionStatus::new(&word, 5);
    status.set_max_cost(100);
    CaseChange.generate(&speller, &mut status);
    assert_eq!(status.suggestion_count(), 0);
}

// --- SoftHyphens ---

#[test]
fn soft_hyphens_strips_and_checks() {
    let speller = MockSpeller::new(&["koira"]);
    let word = chars("koi\u{00AD}ra");
    let mut status = SuggestionStatus::new(&word, 5);
    status.set_max_cost(100);
    SoftHyphens.generate(&speller, &mut status);
    assert_eq!(status.suggestion_count(), 1);
    assert_eq!(status.suggestions()[0].word, "koira");
}

#[test]
fn soft_hyphens_no_soft_hyphens_noop() {
    let speller = MockSpeller::new(&["koira"]);
    let word = chars("koira");
    let mut status = SuggestionStatus::new(&word, 5);
    status.set_max_cost(100);
    SoftHyphens.generate(&speller, &mut status);
    // No soft hyphens in word, generator should not produce anything
    assert_eq!(status.suggestion_count(), 0);
}

// --- Deletion ---

#[test]
fn deletion_finds_suggestion() {
    let speller = MockSpeller::new(&["koira"]);
    let word = chars("koiraa"); // extra 'a' at end
    let mut status = SuggestionStatus::new(&word, 5);
    status.set_max_cost(100);
    Deletion.generate(&speller, &mut status);
    assert!(status.suggestion_count() >= 1);
    assert!(status.suggestions().iter().any(|s| s.word == "koira"));
}

// --- Insertion ---

#[test]
fn insertion_finds_suggestion() {
    let speller = MockSpeller::new(&["koira"]);
    let word = chars("kira"); // missing 'o'
    let mut status = SuggestionStatus::new(&word, 5);
    status.set_max_cost(200);
    let gen = Insertion {
        characters: vec!['o'],
    };
    gen.generate(&speller, &mut status);
    assert!(status.suggestion_count() >= 1);
    assert!(status.suggestions().iter().any(|s| s.word == "koira"));
}

// --- Replacement ---

#[test]
fn replacement_finds_suggestion() {
    let speller = MockSpeller::new(&["koira"]);
    let word = chars("koiru"); // 'u' instead of 'a'
    let mut status = SuggestionStatus::new(&word, 5);
    status.set_max_cost(100);
    let gen = Replacement {
        replacements: vec!['u', 'a'],
    };
    gen.generate(&speller, &mut status);
    assert!(status.suggestion_count() >= 1);
    assert!(status.suggestions().iter().any(|s| s.word == "koira"));
}

// --- Swap ---

#[test]
fn swap_finds_suggestion() {
    let speller = MockSpeller::new(&["koira"]);
    let word = chars("kiora"); // 'o' and 'i' swapped
    let mut status = SuggestionStatus::new(&word, 5);
    status.set_max_cost(100);
    Swap.generate(&speller, &mut status);
    assert!(status.suggestion_count() >= 1);
    assert!(status.suggestions().iter().any(|s| s.word == "koira"));
}

// --- SplitWord ---

#[test]
fn split_word_finds_suggestion() {
    let speller = MockSpeller::new(&["koira", "kissa"]);
    let word = chars("koirakissa"); // two words joined
    let mut status = SuggestionStatus::new(&word, 5);
    status.set_max_cost(200);
    SplitWord.generate(&speller, &mut status);
    assert!(status.suggestion_count() >= 1);
    assert!(status
        .suggestions()
        .iter()
        .any(|s| s.word == "koira kissa"));
}

// --- VowelChange ---

#[test]
fn vowel_change_finds_suggestion() {
    // "koira" with back vowels -> try "k\u{00F6}ir\u{00E4}" (front vowels)
    let speller = MockSpeller::new(&["k\u{00F6}ir\u{00E4}"]);
    let word = chars("koira");
    let mut status = SuggestionStatus::new(&word, 5);
    status.set_max_cost(200);
    VowelChange.generate(&speller, &mut status);
    assert!(status.suggestion_count() >= 1);
}

#[test]
fn vowel_change_no_vowels_noop() {
    let speller = MockSpeller::new(&["brk"]);
    let word = chars("brk");
    let mut status = SuggestionStatus::new(&word, 5);
    status.set_max_cost(100);
    VowelChange.generate(&speller, &mut status);
    assert_eq!(status.suggestion_count(), 0);
}

// --- DeleteTwo ---

#[test]
fn delete_two_finds_suggestion() {
    let speller = MockSpeller::new(&["koiraa"]);
    let word = chars("koiraara"); // "ra" repeated -> "koiraa"
    let mut status = SuggestionStatus::new(&word, 5);
    status.set_max_cost(100);
    DeleteTwo.generate(&speller, &mut status);
    // "koiraara" has "ra" at positions 3-4 and 5-6, so deleting the pair gives "koiraa"
    assert!(status.suggestion_count() >= 1);
}

// --- ReplaceTwo ---

#[test]
fn replace_two_finds_suggestion() {
    let speller = MockSpeller::new(&["kissa"]);
    let word = chars("kitta"); // 'tt' -> 'ss' with replacement table 't','s'
    let mut status = SuggestionStatus::new(&word, 5);
    status.set_max_cost(100);
    let gen = ReplaceTwo {
        replacements: vec!['t', 's'],
    };
    gen.generate(&speller, &mut status);
    assert!(status.suggestion_count() >= 1);
    assert!(status.suggestions().iter().any(|s| s.word == "kissa"));
}

// --- InsertSpecial ---

#[test]
fn insert_special_hyphen() {
    let speller = MockSpeller::new(&["koi-ra"]);
    let word = chars("koira");
    let mut status = SuggestionStatus::new(&word, 5);
    status.set_max_cost(100);
    InsertSpecial.generate(&speller, &mut status);
    assert!(status.suggestions().iter().any(|s| s.word == "koi-ra"));
}

#[test]
fn insert_special_duplication() {
    let speller = MockSpeller::new(&["kiissa"]);
    let word = chars("kissa");
    let mut status = SuggestionStatus::new(&word, 5);
    status.set_max_cost(100);
    InsertSpecial.generate(&speller, &mut status);
    // Should try duplicating 'i' -> "kiissa"
    assert!(status.suggestions().iter().any(|s| s.word == "kiissa"));
}

// --- MultiReplacement ---

#[test]
fn multi_replacement_single() {
    let speller = MockSpeller::new(&["koira"]);
    let word = chars("koiru");
    let mut status = SuggestionStatus::new(&word, 5);
    status.set_max_cost(100);
    let gen = MultiReplacement {
        replacements: vec!['u', 'a'],
        replace_count: 1,
    };
    gen.generate(&speller, &mut status);
    assert!(status.suggestion_count() >= 1);
    assert!(status.suggestions().iter().any(|s| s.word == "koira"));
}

#[test]
fn multi_replacement_two() {
    let speller = MockSpeller::new(&["koira"]);
    let word = chars("loiru"); // 'l'->'k' and 'u'->'a'
    let mut status = SuggestionStatus::new(&word, 5);
    status.set_max_cost(500);
    let gen = MultiReplacement {
        replacements: vec!['l', 'k', 'u', 'a'],
        replace_count: 2,
    };
    gen.generate(&speller, &mut status);
    assert!(status.suggestion_count() >= 1);
    assert!(status.suggestions().iter().any(|s| s.word == "koira"));
}

// --- Abort behavior ---

#[test]
fn generators_respect_abort() {
    let speller = MockSpeller::new(&["a", "b", "c", "d", "e"]);
    let word = chars("x");
    let mut status = SuggestionStatus::new(&word, 1);
    status.set_max_cost(0); // will abort immediately
    Deletion.generate(&speller, &mut status);
    // Should not panic, even if budget is 0
}
