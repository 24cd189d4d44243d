use voikko::analysis::{Analysis, ATTR_MALAGA_VAPAA_JALKIOSA, ATTR_STRUCTURE};
use voikko::enums::SpellResult;
use voikko::morphology::Analyzer;
use voikko::speller::adapter::AnalyzerToSpellerAdapter;
use voikko::speller::finnish::{FinnishSpellerOptions, FinnishSpellerTweaksWrapper};
use voikko::speller::Speller;


/// A mock analyzer for testing Finnish speller tweaks.
struct MockFinnishAnalyzer;

impl MockFinnishAnalyzer {
    fn make_analysis(structure: &str) -> Analysis {
        let mut a = Analysis::new();
        a.set(ATTR_STRUCTURE, structure);
        a
    }

    fn make_analysis_with_free_suffix(structure: &str) -> Analysis {
        let mut a = Analysis::new();
        a.set(ATTR_STRUCTURE, structure);
        a.set(ATTR_MALAGA_VAPAA_JALKIOSA, "true");
        a
    }
}

impl Analyzer for MockFinnishAnalyzer {
    fn analyze(&self, word: &[char], _word_len: usize) -> Vec<Analysis> {
        let s: String = word.iter().collect();
        match s.as_str() {
            "koira" => vec![Self::make_analysis("=ppppp")],
            "kissa" => vec![Self::make_analysis("=ppppp")],
            "helsinki" => vec![Self::make_analysis("=ippppppp")],
            "ja" => vec![Self::make_analysis("=pp")],
            // "sana" has MALAGA_VAPAA_JALKIOSA=true (free suffix part)
            "sana" => vec![Self::make_analysis_with_free_suffix("=pppp")],
            // "popopisto" = compound of "pop" + "opisto"
            "popopisto" => vec![Self::make_analysis("=ppp=pppppp")],
            // "syysilta" (hyphen removed from "syy-silta") has two analyses:
            // with and without compound boundary
            "syysilta" => vec![
                Self::make_analysis("=ppp=ppppp"), // syy + silta (boundary at 3)
                Self::make_analysis("=pppppppp"),  // syysilta (no boundary)
            ],
            _ => vec![],
        }
    }
}

fn chars(s: &str) -> Vec<char> {
    s.chars().collect()
}

fn make_wrapper<'a, S: Speller, A: Analyzer>(
    inner: &'a S,
    analyzer: &'a A,
    accept_extra_hyphens: bool,
) -> FinnishSpellerTweaksWrapper<'a, S, A> {
    FinnishSpellerTweaksWrapper::new(
        inner,
        analyzer,
        FinnishSpellerOptions {
            accept_extra_hyphens,
        },
    )
}

#[test]
fn basic_word_passes_through() {
    let analyzer = MockFinnishAnalyzer;
    let adapter = AnalyzerToSpellerAdapter::new(&analyzer);
    let wrapper = make_wrapper(&adapter, &analyzer, false);

    let word = chars("koira");
    assert_eq!(wrapper.spell(&word, word.len()), SpellResult::Correct);
}

#[test]
fn finnish_unknown_word_fails() {
    let analyzer = MockFinnishAnalyzer;
    let adapter = AnalyzerToSpellerAdapter::new(&analyzer);
    let wrapper = make_wrapper(&adapter, &analyzer, false);

    let word = chars("xyzzy");
    assert_eq!(wrapper.spell(&word, word.len()), SpellResult::Failed);
}

#[test]
fn soft_hyphen_at_start_fails() {
    let analyzer = MockFinnishAnalyzer;
    let adapter = AnalyzerToSpellerAdapter::new(&analyzer);
    let wrapper = make_wrapper(&adapter, &analyzer, false);

    let word = chars("\u{00AD}koira");
    assert_eq!(wrapper.spell(&word, word.len()), SpellResult::Failed);
}

#[test]
fn soft_hyphen_at_end_fails() {
    let analyzer = MockFinnishAnalyzer;
    let adapter = AnalyzerToSpellerAdapter::new(&analyzer);
    let wrapper = make_wrapper(&adapter, &analyzer, false);

    let word = chars("koira\u{00AD}");
    assert_eq!(wrapper.spell(&word, word.len()), SpellResult::Failed);
}

#[test]
fn soft_hyphen_stripped_valid_word() {
    let analyzer = MockFinnishAnalyzer;
    let adapter = AnalyzerToSpellerAdapter::new(&analyzer);
    let wrapper = make_wrapper(&adapter, &analyzer, false);

    // "koi\u{00AD}ra" -> strips to "koira" which is valid
    let word = chars("koi\u{00AD}ra");
    assert_eq!(wrapper.spell(&word, word.len()), SpellResult::Correct);
}

#[test]
fn consecutive_soft_hyphens_fail() {
    let analyzer = MockFinnishAnalyzer;
    let adapter = AnalyzerToSpellerAdapter::new(&analyzer);
    let wrapper = make_wrapper(&adapter, &analyzer, false);

    let word = chars("ko\u{00AD}\u{00AD}ira");
    assert_eq!(wrapper.spell(&word, word.len()), SpellResult::Failed);
}

#[test]
fn vc_overlap_pattern() {
    // "pop-opisto" -> strip hyphen -> "popopisto" which is a known compound
    let analyzer = MockFinnishAnalyzer;
    let adapter = AnalyzerToSpellerAdapter::new(&analyzer);
    let wrapper = make_wrapper(&adapter, &analyzer, false);

    let word = chars("pop-opisto");
    assert_eq!(wrapper.spell(&word, word.len()), SpellResult::Correct);
}

#[test]
fn free_suffix_ja_sana() {
    // "ja-sana": "ja" is a valid word, "sana" has MALAGA_VAPAA_JALKIOSA=true
    let analyzer = MockFinnishAnalyzer;
    let adapter = AnalyzerToSpellerAdapter::new(&analyzer);
    let wrapper = make_wrapper(&adapter, &analyzer, false);

    let word = chars("ja-sana");
    assert_eq!(wrapper.spell(&word, word.len()), SpellResult::Correct);
}

#[test]
fn ambiguous_compound_with_hyphen() {
    // "syy-silta": remove hyphen -> "syyssilta" which has analyses
    // both with and without boundary at position 3
    let analyzer = MockFinnishAnalyzer;
    let adapter = AnalyzerToSpellerAdapter::new(&analyzer);
    let wrapper = make_wrapper(&adapter, &analyzer, false);

    let word = chars("syy-silta");
    assert_eq!(wrapper.spell(&word, word.len()), SpellResult::Correct);
}

#[test]
fn optional_hyphen_with_flag() {
    // When accept_extra_hyphens is true, "koi-ra" should work
    // because stripping hyphen gives "koira" which is valid
    let analyzer = MockFinnishAnalyzer;
    let adapter = AnalyzerToSpellerAdapter::new(&analyzer);
    let wrapper = make_wrapper(&adapter, &analyzer, true);

    let word = chars("koi-ra");
    assert_eq!(wrapper.spell(&word, word.len()), SpellResult::Correct);
}

#[test]
fn optional_hyphen_without_flag_fails() {
    // Without accept_extra_hyphens, "koi-ra" is not recognized
    // (not a VC overlap, not free suffix, not ambiguous compound)
    let analyzer = MockFinnishAnalyzer;
    let adapter = AnalyzerToSpellerAdapter::new(&analyzer);
    let wrapper = make_wrapper(&adapter, &analyzer, false);

    let word = chars("koi-ra");
    // "koira" analyzed without hyphen -> analyses exist but no compound boundary
    // at position 3, so ambiguous compound check needs both border and non-border.
    // Only non-border analysis exists -> check fails -> returns original result
    assert_eq!(wrapper.spell(&word, word.len()), SpellResult::Failed);
}

#[test]
fn proper_noun_passes_through() {
    let analyzer = MockFinnishAnalyzer;
    let adapter = AnalyzerToSpellerAdapter::new(&analyzer);
    let wrapper = make_wrapper(&adapter, &analyzer, false);

    let word = chars("helsinki");
    assert_eq!(
        wrapper.spell(&word, word.len()),
        SpellResult::CapitalizeFirst
    );
}
