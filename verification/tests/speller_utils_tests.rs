use voikko::enums::SpellResult;
use voikko::speller::utils::match_word_and_analysis;


#[test]
fn all_lowercase_matches_lowercase_structure() {
    let word: Vec<char> = "koira".chars().collect();
    assert_eq!(match_word_and_analysis(&word, "=ppppp"), SpellResult::Correct);
}

#[test]
fn first_upper_matches_uppercase_first_structure() {
    let word: Vec<char> = "Helsinki".chars().collect();
    assert_eq!(match_word_and_analysis(&word, "=ippppppp"), SpellResult::Correct);
}

#[test]
fn lowercase_first_when_uppercase_expected_returns_cap_first() {
    let word: Vec<char> = "helsinki".chars().collect();
    assert_eq!(
        match_word_and_analysis(&word, "=ippppppp"),
        SpellResult::CapitalizeFirst
    );
}

#[test]
fn uppercase_where_lowercase_expected_returns_cap_error() {
    let word: Vec<char> = "koIra".chars().collect();
    assert_eq!(
        match_word_and_analysis(&word, "=ppppp"),
        SpellResult::CapitalizationError
    );
}

#[test]
fn compound_boundary_markers_are_skipped() {
    // STRUCTURE "=ppp=ppppp" for a compound word like "koiratalo"
    let word: Vec<char> = "koiratalo".chars().collect();
    assert_eq!(
        match_word_and_analysis(&word, "=ppp=pppppp"),
        SpellResult::Correct
    );
}

#[test]
fn abbreviation_context_q_accepts_lowercase() {
    let word: Vec<char> = "abc".chars().collect();
    assert_eq!(match_word_and_analysis(&word, "=qqq"), SpellResult::Correct);
}

#[test]
fn abbreviation_context_j_accepts_uppercase() {
    let word: Vec<char> = "ABC".chars().collect();
    assert_eq!(match_word_and_analysis(&word, "=jjj"), SpellResult::Correct);
}

#[test]
fn uppercase_where_q_expected_returns_cap_error() {
    let word: Vec<char> = "ABC".chars().collect();
    assert_eq!(
        match_word_and_analysis(&word, "=qqq"),
        SpellResult::CapitalizationError
    );
}

#[test]
fn punctuation_in_word_does_not_affect_result() {
    // Digit/punctuation has captype 'v', which doesn't match any error condition
    let word: Vec<char> = "a1b".chars().collect();
    assert_eq!(match_word_and_analysis(&word, "=pip"), SpellResult::Correct);
}

#[test]
fn utils_empty_word_is_ok() {
    assert_eq!(match_word_and_analysis(&[], "=ppp"), SpellResult::Correct);
}

#[test]
fn empty_structure_is_ok() {
    let word: Vec<char> = "abc".chars().collect();
    assert_eq!(match_word_and_analysis(&word, ""), SpellResult::Correct);
}

#[test]
fn multiple_compound_boundaries() {
    // "syyssilta" with structure "=ppp=pppppp" (compound at position 3)
    let word: Vec<char> = "syyssilta".chars().collect();
    assert_eq!(
        match_word_and_analysis(&word, "=ppp=pppppp"),
        SpellResult::Correct
    );
}

#[test]
fn second_letter_uppercase_where_lowercase_expected() {
    let word: Vec<char> = "kOira".chars().collect();
    assert_eq!(
        match_word_and_analysis(&word, "=ppppp"),
        SpellResult::CapitalizationError
    );
}

#[test]
fn first_letter_lowercase_with_uppercase_j_expected() {
    let word: Vec<char> = "abc".chars().collect();
    assert_eq!(
        match_word_and_analysis(&word, "=jpp"),
        SpellResult::CapitalizeFirst
    );
}

#[test]
fn finnish_chars_case_detection() {
    // "Aaiti" with first upper expected
    let word: Vec<char> = "\u{00C4}iti".chars().collect(); // Aiti
    assert_eq!(match_word_and_analysis(&word, "=ippp"), SpellResult::Correct);
}
