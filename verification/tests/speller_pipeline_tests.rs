use voikko::analysis::{Analysis, ATTR_STRUCTURE};
use voikko::case::CaseType;
use voikko::enums::{SpellResult, MAX_WORD_CHARS};
use voikko::morphology::Analyzer;
use voikko::speller::adapter::AnalyzerToSpellerAdapter;
use voikko::speller::pipeline::{
    hyphen_aware_spell, is_nonword, map_spell_result, normalize, spell_check, SpellOptions,
    CONV_2TO1, VOIKKO_SPELL_FAILED, VOIKKO_SPELL_OK,
};
use voikko::speller::Speller;



struct MockPipelineAnalyzer;

impl MockPipelineAnalyzer {
    fn make_analysis(structure: &str) -> Analysis {
        let mut a = Analysis::new();
        a.set(ATTR_STRUCTURE, structure);
        a
    }
}

impl Analyzer for MockPipelineAnalyzer {
    fn analyze(&self, word: &[char], _word_len: usize) -> Vec<Analysis> {
        let s: String = word.iter().collect();
        match s.as_str() {
            "koira" => vec![Self::make_analysis("=ppppp")],
            "helsinki" => vec![Self::make_analysis("=ippppppp")],
            "eu" => vec![Self::make_analysis("=jj")],
            "1.5" => vec![], // number, not a word
            _ => vec![],
        }
    }
}

fn chars(s: &str) -> Vec<char> {
    s.chars().collect()
}

fn spell_word(word: &str, options: &SpellOptions) -> i32 {
    let analyzer = MockPipelineAnalyzer;
    let adapter = AnalyzerToSpellerAdapter::new(&analyzer);
    let word_chars = chars(word);
    spell_check(&word_chars, &adapter, options)
}

fn default_options() -> SpellOptions {
    SpellOptions::default()
}

// --- is_nonword tests ---

#[test]
fn pipeline_nonword_url() {
    assert!(is_nonword(&chars("http://example.com")));
}

#[test]
fn pipeline_nonword_email() {
    assert!(is_nonword(&chars("user@example.com")));
}

#[test]
fn pipeline_nonword_www() {
    assert!(is_nonword(&chars("www.example.com")));
}

#[test]
fn not_nonword_regular() {
    assert!(!is_nonword(&chars("koira")));
}

#[test]
fn not_nonword_short() {
    assert!(!is_nonword(&chars("abc")));
}

// --- normalize tests ---

#[test]
fn normalize_plain_text() {
    let word = chars("koira");
    let result = normalize(&word);
    assert_eq!(result, word);
}

#[test]
fn normalize_hyphen_variants() {
    let word = chars("syy\u{2010}silta"); // HYPHEN (U+2010)
    let result = normalize(&word);
    assert_eq!(result, chars("syy-silta"));
}

#[test]
fn normalize_ligature_ff() {
    let word = chars("\u{FB00}"); // LATIN SMALL LIGATURE FF
    let result = normalize(&word);
    assert_eq!(result, chars("ff"));
}

#[test]
fn normalize_ligature_fi() {
    let word = chars("\u{FB01}"); // LATIN SMALL LIGATURE FI
    let result = normalize(&word);
    assert_eq!(result, chars("fi"));
}

#[test]
fn normalize_ligature_fl() {
    let word = chars("\u{FB02}"); // LATIN SMALL LIGATURE FL
    let result = normalize(&word);
    assert_eq!(result, chars("fl"));
}

#[test]
fn normalize_ligature_ffi() {
    let word = chars("\u{FB03}"); // LATIN SMALL LIGATURE FFI
    let result = normalize(&word);
    assert_eq!(result, chars("ffi"));
}

#[test]
fn normalize_ligature_ffl() {
    let word = chars("\u{FB04}"); // LATIN SMALL LIGATURE FFL
    let result = normalize(&word);
    assert_eq!(result, chars("ffl"));
}

#[test]
fn normalize_non_breaking_hyphen() {
    let word = chars("syy\u{2011}silta"); // NON-BREAKING HYPHEN (U+2011)
    let result = normalize(&word);
    assert_eq!(result, chars("syy-silta"));
}

#[test]
fn normalize_right_single_quotation_mark() {
    let word = chars("it\u{2019}s"); // RIGHT SINGLE QUOTATION MARK (U+2019)
    let result = normalize(&word);
    assert_eq!(result, chars("it's"));
}

#[test]
fn normalize_degree_celsius() {
    let word = chars("20\u{2103}"); // DEGREE CELSIUS (U+2103)
    let result = normalize(&word);
    assert_eq!(result, chars("20\u{00B0}C"));
}

#[test]
fn normalize_degree_fahrenheit() {
    let word = chars("68\u{2109}"); // DEGREE FAHRENHEIT (U+2109)
    let result = normalize(&word);
    assert_eq!(result, chars("68\u{00B0}F"));
}

// --- 2-to-1 combining diacritical mark tests ---

#[test]
fn normalize_a_combining_diaeresis_lower() {
    // a + U+0308 COMBINING DIAERESIS -> U+00E4 (a with diaeresis)
    let word = chars("a\u{0308}");
    let result = normalize(&word);
    assert_eq!(result, chars("\u{00E4}"));
}

#[test]
fn normalize_a_combining_diaeresis_upper() {
    // A + U+0308 COMBINING DIAERESIS -> U+00C4 (A with diaeresis)
    let word = chars("A\u{0308}");
    let result = normalize(&word);
    assert_eq!(result, chars("\u{00C4}"));
}

#[test]
fn normalize_o_combining_diaeresis_lower() {
    // o + U+0308 COMBINING DIAERESIS -> U+00F6 (o with diaeresis)
    let word = chars("o\u{0308}");
    let result = normalize(&word);
    assert_eq!(result, chars("\u{00F6}"));
}

#[test]
fn normalize_o_combining_diaeresis_upper() {
    // O + U+0308 COMBINING DIAERESIS -> U+00D6 (O with diaeresis)
    let word = chars("O\u{0308}");
    let result = normalize(&word);
    assert_eq!(result, chars("\u{00D6}"));
}

#[test]
fn normalize_e_combining_acute() {
    // e + U+0301 COMBINING ACUTE -> U+00E9 (e with acute)
    let word = chars("e\u{0301}");
    let result = normalize(&word);
    assert_eq!(result, chars("\u{00E9}"));
}

#[test]
fn normalize_n_combining_tilde() {
    // n + U+0303 COMBINING TILDE -> U+00F1 (n with tilde)
    let word = chars("n\u{0303}");
    let result = normalize(&word);
    assert_eq!(result, chars("\u{00F1}"));
}

#[test]
fn normalize_a_combining_ring_above() {
    // a + U+030A COMBINING RING ABOVE -> U+00E5 (a with ring above)
    let word = chars("a\u{030A}");
    let result = normalize(&word);
    assert_eq!(result, chars("\u{00E5}"));
}

#[test]
fn normalize_c_combining_cedilla() {
    // c + U+0327 COMBINING CEDILLA -> U+00E7 (c with cedilla)
    let word = chars("c\u{0327}");
    let result = normalize(&word);
    assert_eq!(result, chars("\u{00E7}"));
}

#[test]
fn normalize_s_combining_caron() {
    // s + U+030C COMBINING CARON -> U+0161 (s with caron)
    let word = chars("s\u{030C}");
    let result = normalize(&word);
    assert_eq!(result, chars("\u{0161}"));
}

#[test]
fn normalize_z_combining_caron_upper() {
    // Z + U+030C COMBINING CARON -> U+017D (Z with caron)
    let word = chars("Z\u{030C}");
    let result = normalize(&word);
    assert_eq!(result, chars("\u{017D}"));
}

#[test]
fn normalize_cyrillic_short_i() {
    // CYRILLIC CAPITAL LETTER I (U+0418) + COMBINING BREVE (U+0306)
    // -> CYRILLIC CAPITAL LETTER SHORT I (U+0419)
    let word = chars("\u{0418}\u{0306}");
    let result = normalize(&word);
    assert_eq!(result, chars("\u{0419}"));
}

#[test]
fn normalize_cyrillic_io_lower() {
    // CYRILLIC SMALL LETTER IE (U+0435) + COMBINING DIAERESIS (U+0308)
    // -> CYRILLIC SMALL LETTER IO (U+0451)
    let word = chars("\u{0435}\u{0308}");
    let result = normalize(&word);
    assert_eq!(result, chars("\u{0451}"));
}

#[test]
fn normalize_word_with_combining_marks() {
    // "pa\u{0308}a\u{0308}" (p + a+diaeresis + a+diaeresis) -> "p\u{00E4}\u{00E4}"
    let word = chars("pa\u{0308}a\u{0308}");
    let result = normalize(&word);
    assert_eq!(result, chars("p\u{00E4}\u{00E4}"));
}

#[test]
fn normalize_mixed_combining_and_ligature() {
    // Mix: combining mark composition + ligature in same word
    // "a\u{0308}\u{FB01}n" -> "\u{00E4}fin"
    let word = chars("a\u{0308}\u{FB01}n");
    let result = normalize(&word);
    assert_eq!(result, chars("\u{00E4}fin"));
}

#[test]
fn normalize_2to1_has_priority_over_1to1() {
    // If a char matches 2-to-1 (with next char), that takes priority.
    // U+0415 (Cyrillic IE) + U+0300 -> U+0400 (Cyrillic IE WITH GRAVE)
    // not passed through individually
    let word = chars("\u{0415}\u{0300}");
    let result = normalize(&word);
    assert_eq!(result.len(), 1);
    assert_eq!(result[0], '\u{0400}');
}

#[test]
fn normalize_combining_mark_at_end_passthrough() {
    // A combining mark at the very end with no recognized pair: pass through
    let word = chars("x\u{0306}"); // x + COMBINING BREVE (not in table)
    let result = normalize(&word);
    assert_eq!(result, chars("x\u{0306}"));
}

#[test]
fn normalize_empty_word() {
    let word: Vec<char> = vec![];
    let result = normalize(&word);
    assert!(result.is_empty());
}

#[test]
fn normalize_single_char() {
    let word = chars("k");
    let result = normalize(&word);
    assert_eq!(result, chars("k"));
}

#[test]
fn normalize_conv_2to1_table_count() {
    // Verify table has exactly 67 entries as in C++
    assert_eq!(CONV_2TO1.len(), 67);
}

// --- Pipeline tests ---

#[test]
fn pipeline_empty_word_is_ok() {
    assert_eq!(spell_word("", &default_options()), VOIKKO_SPELL_OK);
}

#[test]
fn known_lowercase_word() {
    assert_eq!(spell_word("koira", &default_options()), VOIKKO_SPELL_OK);
}

#[test]
fn pipeline_unknown_word_fails() {
    assert_eq!(spell_word("xyzzy", &default_options()), VOIKKO_SPELL_FAILED);
}

#[test]
fn first_upper_proper_noun() {
    assert_eq!(spell_word("Helsinki", &default_options()), VOIKKO_SPELL_OK);
}

#[test]
fn all_upper_proper_noun() {
    // "HELSINKI" -> lowercased "helsinki" -> analysis has "=ippppppp"
    // SpellResult::CapitalizeFirst -> for ALL_UPPER, not failed -> OK
    assert_eq!(spell_word("HELSINKI", &default_options()), VOIKKO_SPELL_OK);
}

#[test]
fn all_upper_common_word() {
    // "KOIRA" -> lowercased "koira" -> SpellResult::Correct -> for ALL_UPPER -> OK
    assert_eq!(spell_word("KOIRA", &default_options()), VOIKKO_SPELL_OK);
}

#[test]
fn ignore_uppercase_returns_ok() {
    let mut opts = default_options();
    opts.ignore_uppercase = true;
    assert_eq!(spell_word("XYZZY", &opts), VOIKKO_SPELL_OK);
}

#[test]
fn ignore_numbers_returns_ok_for_digits() {
    let mut opts = default_options();
    opts.ignore_numbers = true;
    assert_eq!(spell_word("abc123", &opts), VOIKKO_SPELL_OK);
}

#[test]
fn ignore_nonwords_returns_ok_for_url() {
    let opts = default_options(); // ignore_nonwords is true by default
    assert_eq!(spell_word("http://example.com", &opts), VOIKKO_SPELL_OK);
}

#[test]
fn first_upper_without_accept_first_uppercase() {
    let mut opts = default_options();
    opts.accept_first_uppercase = false;
    // "Koira" -> lowercased "koira" -> SpellResult::Correct
    // Without accept_first_uppercase, FIRST_UPPER requires SpellResult::CapitalizeFirst
    assert_eq!(spell_word("Koira", &opts), VOIKKO_SPELL_FAILED);
}

#[test]
fn first_upper_proper_noun_without_accept_first_uppercase() {
    let mut opts = default_options();
    opts.accept_first_uppercase = false;
    // "Helsinki" -> lowercased "helsinki" -> SpellResult::CapitalizeFirst -> OK
    assert_eq!(spell_word("Helsinki", &opts), VOIKKO_SPELL_OK);
}

#[test]
fn all_upper_without_accept_all_uppercase() {
    let mut opts = default_options();
    opts.accept_all_uppercase = false;
    // "KOIRA" -> caps becomes COMPLEX -> exact case check
    // buffer = "kOIRA" (lowercase first, rest original) -> won't match "=ppppp"
    // Actually the COMPLEX path lowercases first char: "kOIRA"
    // The word "kOIRA" checked against "=ppppp" -> 'O' uppercase at position 1 -> CapError
    assert_eq!(spell_word("KOIRA", &opts), VOIKKO_SPELL_FAILED);
}

#[test]
fn word_exceeding_max_length_fails() {
    let long_word: String = "a".repeat(MAX_WORD_CHARS + 1);
    assert_eq!(
        spell_word(&long_word, &default_options()),
        VOIKKO_SPELL_FAILED
    );
}

#[test]
fn all_upper_abbreviation() {
    // "EU" -> lowercased "eu" -> analysis structure "=jj" expects uppercase
    // SpellResult::CapitalizeFirst (lowercase 'e' where 'j' expected)
    // For ALL_UPPER, CapitalizeFirst != Failed -> OK
    assert_eq!(spell_word("EU", &default_options()), VOIKKO_SPELL_OK);
}

// --- map_spell_result tests ---

#[test]
fn map_all_lower_ok() {
    let opts = default_options();
    assert_eq!(
        map_spell_result(SpellResult::Correct, CaseType::AllLower, &opts),
        VOIKKO_SPELL_OK
    );
}

#[test]
fn map_all_lower_cap_first_fails() {
    let opts = default_options();
    assert_eq!(
        map_spell_result(SpellResult::CapitalizeFirst, CaseType::AllLower, &opts),
        VOIKKO_SPELL_FAILED
    );
}

#[test]
fn map_first_upper_cap_first_ok() {
    let opts = default_options();
    assert_eq!(
        map_spell_result(SpellResult::CapitalizeFirst, CaseType::FirstUpper, &opts),
        VOIKKO_SPELL_OK
    );
}

#[test]
fn map_first_upper_ok_with_accept() {
    let opts = default_options();
    assert_eq!(
        map_spell_result(SpellResult::Correct, CaseType::FirstUpper, &opts),
        VOIKKO_SPELL_OK
    );
}

#[test]
fn map_first_upper_ok_without_accept() {
    let mut opts = default_options();
    opts.accept_first_uppercase = false;
    assert_eq!(
        map_spell_result(SpellResult::Correct, CaseType::FirstUpper, &opts),
        VOIKKO_SPELL_FAILED
    );
}

#[test]
fn map_all_upper_ok() {
    let opts = default_options();
    assert_eq!(
        map_spell_result(SpellResult::Correct, CaseType::AllUpper, &opts),
        VOIKKO_SPELL_OK
    );
}

#[test]
fn map_all_upper_cap_first_ok() {
    let opts = default_options();
    assert_eq!(
        map_spell_result(SpellResult::CapitalizeFirst, CaseType::AllUpper, &opts),
        VOIKKO_SPELL_OK
    );
}

#[test]
fn map_all_upper_failed() {
    let opts = default_options();
    assert_eq!(
        map_spell_result(SpellResult::Failed, CaseType::AllUpper, &opts),
        VOIKKO_SPELL_FAILED
    );
}

// --- hyphen_aware_spell tests ---

#[test]
fn hyphen_aware_no_missing_hyphens() {
    struct OkSpeller;
    impl Speller for OkSpeller {
        fn spell(&self, _word: &[char], _wlen: usize) -> SpellResult {
            SpellResult::Correct
        }
    }
    let word = chars("koira");
    assert_eq!(
        hyphen_aware_spell(&OkSpeller, &word, word.len(), false),
        SpellResult::Correct
    );
}

#[test]
fn hyphen_aware_with_missing_hyphens() {
    // Speller that only accepts words starting and ending with '-'
    struct HyphenSpeller;
    impl Speller for HyphenSpeller {
        fn spell(&self, word: &[char], wlen: usize) -> SpellResult {
            if wlen >= 2 && word[0] == '-' && word[wlen - 1] == '-' {
                SpellResult::Correct
            } else {
                SpellResult::Failed
            }
        }
    }
    let word = chars("koira");
    assert_eq!(
        hyphen_aware_spell(&HyphenSpeller, &word, word.len(), true),
        SpellResult::Correct
    );
}

#[test]
fn nonword_needs_a_character_after_the_dot() {
    assert!(!is_nonword(&chars("ab@c.")));
    assert!(!is_nonword(&chars("http://example.")));
    assert!(!is_nonword(&chars("www.example.")));
    assert!(!is_nonword(&chars("ab@.c")));
    assert!(is_nonword(&chars("ab@c.d")));
}

#[test]
fn normalize_long_words_too() {
    let word: Vec<char> = std::iter::repeat('a').take(MAX_WORD_CHARS + 10).collect();
    let result = normalize(&word);
    assert_eq!(result, word);
    let lig: Vec<char> = std::iter::repeat('\u{FB03}').take(300).collect();
    assert_eq!(normalize(&lig).len(), 900);
}

#[test]
fn capitalized_forms_of_a_correct_word_are_correct() {
    struct Lexicon;
    impl Speller for Lexicon {
        fn spell(&self, word: &[char], word_len: usize) -> SpellResult {
            let s: String = word[..word_len].iter().collect();
            if s == "koira" { SpellResult::Correct } else { SpellResult::Failed }
        }
    }
    let opts = SpellOptions::default();
    for w in ["koira", "KOIRA", "Koira"] {
        let chars: Vec<char> = w.chars().collect();
        assert_eq!(spell_check(&chars, &Lexicon, &opts), 1, "{}", w);
    }
    let wrong: Vec<char> = "kissa".chars().collect();
    assert_eq!(spell_check(&wrong, &Lexicon, &opts), 0);
}
