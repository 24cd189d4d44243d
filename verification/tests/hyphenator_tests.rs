use voikko::analysis::{Analysis, ATTR_STRUCTURE};
use voikko::hyphenator::buffers::{intersect_hyphenations, interpret_analysis, remove_extra_hyphenations, union_hyphenations};
use voikko::hyphenator::rules::{is_good_hyphen_position, is_nonword, rule_hyphenation};
use voikko::hyphenator::{FinnishHyphenator, Hyphenator, HyphenatorOptions};
use voikko::morphology::Analyzer;


// -----------------------------------------------------------------------
// Mock analyzer for testing
// -----------------------------------------------------------------------

/// A mock analyzer that returns predefined analyses for specific words.
struct MockAnalyzer {
    /// Map from word (lowercase chars) to list of STRUCTURE values
    entries: Vec<(Vec<char>, Vec<String>)>,
}

impl MockAnalyzer {
    fn new() -> Self {
        Self {
            entries: Vec::new(),
        }
    }

    /// Register a word with one or more STRUCTURE attribute values.
    fn add_word(&mut self, word: &str, structures: &[&str]) {
        let chars: Vec<char> = word.chars().collect();
        let structs: Vec<String> = structures.iter().map(|s| s.to_string()).collect();
        self.entries.push((chars, structs));
    }
}

impl Analyzer for MockAnalyzer {
    fn analyze(&self, word: &[char], _word_len: usize) -> Vec<Analysis> {
        for (entry_word, structures) in &self.entries {
            if word == entry_word.as_slice() {
                return structures
                    .iter()
                    .map(|s| {
                        let mut a = Analysis::new();
                        a.set(ATTR_STRUCTURE, s.as_str());
                        a
                    })
                    .collect();
            }
        }
        Vec::new()
    }
}

/// A mock analyzer that always returns empty results (unknown words).
struct NullAnalyzer;

impl Analyzer for NullAnalyzer {
    fn analyze(&self, _word: &[char], _word_len: usize) -> Vec<Analysis> {
        Vec::new()
    }
}

// -----------------------------------------------------------------------
// Helper functions
// -----------------------------------------------------------------------

fn chars(s: &str) -> Vec<char> {
    s.chars().collect()
}

fn hyphenate_str(hyp: &impl Hyphenator, word: &str) -> String {
    hyp.hyphenate(&chars(word))
}

/// Render a hyphenated word with hyphens inserted at break points.
/// E.g., word="koira", pattern=" -  -" => "koi-ra" (but the pattern is
///   actually "  - -" for a proper split, let me not overthink the rendering).
fn render_hyphenation(word: &str, pattern: &str) -> String {
    let word_chars: Vec<char> = word.chars().collect();
    let pattern_chars: Vec<char> = pattern.chars().collect();
    let mut result = String::new();
    for (i, &wc) in word_chars.iter().enumerate() {
        if i < pattern_chars.len() && (pattern_chars[i] == '-' || pattern_chars[i] == '=') {
            result.push('-');
        }
        result.push(wc);
    }
    result
}

// -----------------------------------------------------------------------
// Pure function tests: is_nonword
// -----------------------------------------------------------------------

#[test]
fn mod_nonword_url() {
    let w = chars("http://example.com");
    assert!(is_nonword(&w, w.len()));
}

#[test]
fn mod_nonword_email() {
    let w = chars("user@example.com");
    assert!(is_nonword(&w, w.len()));
}

#[test]
fn mod_nonword_www() {
    let w = chars("www.example.com");
    assert!(is_nonword(&w, w.len()));
}

#[test]
fn nonword_regular_word() {
    let w = chars("koira");
    assert!(!is_nonword(&w, w.len()));
}

#[test]
fn nonword_short() {
    let w = chars("ab");
    assert!(!is_nonword(&w, w.len()));
}

// -----------------------------------------------------------------------
// Pure function tests: is_good_hyphen_position
// -----------------------------------------------------------------------

#[test]
fn good_hyphen_position_basic() {
    let word = chars("koira");
    let hyph = vec![b' '; 5];
    // Position 3 ("r"): syllable before has "oi" (vowels), after has "a" (vowel)
    assert!(is_good_hyphen_position(&word, &hyph, 3, 5));
}

#[test]
fn good_hyphen_position_at_start() {
    let word = chars("koira");
    let hyph = vec![b' '; 5];
    assert!(!is_good_hyphen_position(&word, &hyph, 0, 5));
}

#[test]
fn good_hyphen_position_at_end() {
    let word = chars("koira");
    let hyph = vec![b' '; 5];
    // Position 4 is the last char -> new_hyphen_pos + 1 >= nchars
    assert!(!is_good_hyphen_position(&word, &hyph, 4, 5));
}

#[test]
fn good_hyphen_no_vowel_before() {
    let word = chars("strk");
    let hyph = vec![b' '; 4];
    // Position 2: before has "st" (no vowels)
    assert!(!is_good_hyphen_position(&word, &hyph, 2, 4));
}

// -----------------------------------------------------------------------
// Pure function tests: interpret_analysis
// -----------------------------------------------------------------------

#[test]
fn interpret_simple_word() {
    // "koira" with STRUCTURE "=ppppp" -> no compound boundaries
    let mut a = Analysis::new();
    a.set(ATTR_STRUCTURE, "=ppppp");
    let mut buf = vec![b' '; 5];
    interpret_analysis(&a, &mut buf, 5);
    assert_eq!(buf, vec![b' ', b' ', b' ', b' ', b' ']);
}

#[test]
fn interpret_compound_word() {
    // "koiranruoka" with STRUCTURE "=ppppp=pppppp"
    // The '=' at position 5 (after "koiran") marks a compound boundary
    let mut a = Analysis::new();
    a.set(ATTR_STRUCTURE, "=ppppp=pppppp");
    let mut buf = vec![b' '; 11];
    interpret_analysis(&a, &mut buf, 11);
    // Position 5 should be '-' (compound boundary before "ruoka")
    // But let's trace through the logic:
    // sptr starts at 1 (after first '=')
    // i=0: sptr=1 'p' -> ' ', sptr=2
    // i=1: sptr=2 'p' -> ' ', sptr=3
    // i=2: sptr=3 'p' -> ' ', sptr=4
    // i=3: sptr=4 'p' -> ' ', sptr=5
    // i=4: sptr=5 'p' -> ' ', sptr=6
    // i=5: sptr=6 '=' -> buffer[5] = '-', sptr=8 (skip '=' and next char)
    // i=6: sptr=8 'p' -> ' ', sptr=9
    // ... etc
    assert_eq!(buf[5], b'-');
    // Other positions should be ' '
    assert_eq!(buf[0], b' ');
    assert_eq!(buf[4], b' ');
    assert_eq!(buf[6], b' ');
}

#[test]
fn interpret_hyphen_compound() {
    // "maa-ala" with STRUCTURE "=ppp-=pppp"
    // The '-=' at position 3 marks an explicit hyphen boundary
    let mut a = Analysis::new();
    a.set(ATTR_STRUCTURE, "=ppp-=pppp");
    let mut buf = vec![b' '; 7];
    interpret_analysis(&a, &mut buf, 7);
    // i=0: sptr=1 'p' -> ' '
    // i=1: sptr=2 'p' -> ' '
    // i=2: sptr=3 'p' -> ' '
    // i=3: sptr=4 '-', sptr+1=5 '=' -> buffer[3] = '=', sptr=6
    // i=4: sptr=6 'p' -> ' '
    // i=5: sptr=7 'p' -> ' '
    // i=6: sptr=8 'p' -> ' '
    assert_eq!(buf[3], b'=');
    assert_eq!(buf[0], b' ');
}

#[test]
fn interpret_abbreviation_marker() {
    // Test 'j' and 'q' markers
    let mut a = Analysis::new();
    a.set(ATTR_STRUCTURE, "=jqp");
    let mut buf = vec![b' '; 3];
    interpret_analysis(&a, &mut buf, 3);
    assert_eq!(buf[0], b'X'); // 'j' marker
    assert_eq!(buf[1], b'X'); // 'q' marker
    assert_eq!(buf[2], b' '); // 'p' marker
}

// -----------------------------------------------------------------------
// Pure function tests: rule_hyphenation
// -----------------------------------------------------------------------

#[test]
fn rule_hyphenation_cv_break() {
    // "koira" -> should get -CV break at 'r' (position 3): "koi-ra"
    let word = chars("koira");
    let mut hyph = vec![b' '; 5];
    rule_hyphenation(&word, &mut hyph, 5, true);
    // The -CV rule fires at position 3 (r is consonant, a is vowel)
    assert_eq!(hyph[3], b'-');
}

#[test]
fn rule_hyphenation_kissa() {
    // "kissa" -> "kis-sa"
    // -CV at position 2 ('s' before 's') - no, 's' before 'a' at position 3.
    // Actually: k(0) i(1) s(2) s(3) a(4)
    // -CV at pos 2: s(2) consonant, s(3) consonant -> no
    // -CV at pos 3: s(3) consonant, a(4) vowel -> yes, "-" at position 3
    // So "kis-sa"
    let word = chars("kissa");
    let mut hyph = vec![b' '; 5];
    rule_hyphenation(&word, &mut hyph, 5, true);
    assert_eq!(hyph[3], b'-');
    let rendered = render_hyphenation("kissa", &String::from_utf8(hyph).unwrap());
    assert_eq!(rendered, "kis-sa");
}

#[test]
fn rule_hyphenation_talo() {
    // "talo" -> "ta-lo"
    // t(0) a(1) l(2) o(3)
    // Skip leading consonants: i starts at 1 (first vowel 'a')
    // -CV at pos 2: l(2) consonant, o(3) vowel -> yes
    let word = chars("talo");
    let mut hyph = vec![b' '; 4];
    rule_hyphenation(&word, &mut hyph, 4, true);
    assert_eq!(hyph[2], b'-');
}

#[test]
fn rule_hyphenation_maa_no_split_long_vowel() {
    // "maa" -> should NOT be split (long vowel stays together)
    // m(0) a(1) a(2) - only 3 chars
    // -CV: starting from first vowel (pos 1). pos 1: a vowel, not consonant.
    // pos 2 would be checked but we need i <= nchars-2, so i <= 1.
    // Actually the -CV loop starts at i (the position after leading consonants)
    // and goes to nchars-2. For "maa": i starts at 1 (a is vowel).
    // i=1: a is vowel, not consonant -> skip
    // No -CV breaks. The long vowel rule (Rule 3) checks for double vowels:
    // i=1: a(1)==a(2) -> yes. Before: a(0)? No, i-1=0 which is 'm' (consonant).
    // So no split before. After: i+2=3 which is >= nchars, so no split after.
    let word = chars("maa");
    let mut hyph = vec![b' '; 3];
    rule_hyphenation(&word, &mut hyph, 3, true);
    assert_eq!(hyph, vec![b' ', b' ', b' ']);
}

#[test]
fn rule_hyphenation_saippua() {
    // "saippua" -> "saip-pu-a"
    // s(0) a(1) i(2) p(3) p(4) u(5) a(6)
    // -CV: skip leading consonants -> i=1 (first vowel)
    // i=1: a vowel -> no
    // i=2: i vowel -> no
    // i=3: p consonant, p(4) consonant -> no
    // i=4: p consonant, u(5) vowel -> yes, hyph[4] = '-'
    // i=5: u vowel -> no (i <= 5, nchars-2=5)
    //
    // V-V rule: check vowel pairs
    // i=0: s not vowel -> skip
    // i=1: a(1) vowel, i(2) vowel -> pair "ai" -> check SPLIT_VOWELS
    //   "ai" is NOT in SPLIT_VOWELS. Actually let me check: SPLIT_VOWELS has
    //   ae, ao, ea, eo, ia, io, oa, oe, ua, ue, ye, ... No "ai".
    //   So no split at pos 2.
    // i=5: u(5) vowel, a(6) vowel -> pair "ua" -> check SPLIT_VOWELS
    //   "ua" IS in SPLIT_VOWELS. hyph[6] = '-'
    //
    // VV-V rule (ugly mode): check "ai" followed by vowel
    // i=0: s(0),a(1) -> not matching SPLIT_AFTER
    // i=1: a(1),i(2) -> "ai" IS in SPLIT_AFTER!
    //   hyph[1+1]=hyph[2] != '-' (it's ' '), pair matches "ai",
    //   word[i+2]=p(3) -> is_vowel? No. So this doesn't fire.
    //
    // Result: hyph = "    - -" -> "saip-pu-a"
    let word = chars("saippua");
    let mut hyph = vec![b' '; 7];
    rule_hyphenation(&word, &mut hyph, 7, true);
    assert_eq!(hyph[4], b'-'); // "saip-pua"
    assert_eq!(hyph[6], b'-'); // "saip-pu-a"
    let rendered = render_hyphenation("saippua", &String::from_utf8(hyph).unwrap());
    assert_eq!(rendered, "saip-pu-a");
}

#[test]
fn rule_hyphenation_with_umlaut() {
    // "kävelö" -> "kä-ve-lö"
    // k(0) ä(1) v(2) e(3) l(4) ö(5)
    // -CV: i starts at 1 (ä is vowel)
    // i=1: ä vowel -> no
    // i=2: v consonant, e(3) vowel -> yes, hyph[2] = '-'
    // i=3: e vowel -> no
    // i=4: l consonant, ö(5) vowel -> yes, hyph[4] = '-'
    let word: Vec<char> = "k\u{00E4}vel\u{00F6}".chars().collect();
    let mut hyph = vec![b' '; 6];
    rule_hyphenation(&word, &mut hyph, 6, true);
    assert_eq!(hyph[2], b'-');
    assert_eq!(hyph[4], b'-');
}

#[test]
fn rule_hyphenation_single_syllable() {
    // "tie" -> no hyphenation (too short for meaningful splits)
    let word = chars("tie");
    let mut hyph = vec![b' '; 3];
    rule_hyphenation(&word, &mut hyph, 3, true);
    // -CV: i starts at 0 (t is consonant), then i=1 (i is vowel)
    // Actually: skip leading consonants. t is consonant, so i increments.
    // i=1: starts the -CV loop. But we need i <= nchars-2 = 1.
    // i=1: i(1) is vowel, not consonant -> no
    // No -CV breaks.
    // V-V: i(1) vowel, e(2) vowel -> pair "ie"
    //   "ie" is NOT in SPLIT_VOWELS (it's a diphthong).
    // VV-V: i=0: t(0),i(1) -> not in SPLIT_AFTER. Only "ie" and "ai" are there.
    //   Wait, SPLIT_AFTER = [['i','e'], ['a','i']].
    //   i=0: t,i -> no match.
    // No hyphens.
    assert_eq!(hyph, vec![b' ', b' ', b' ']);
}

#[test]
fn rule_hyphenation_no_ugly_suppresses_edges() {
    // "talo" with ugly=false -> position 1 forbidden, last position forbidden
    // -CV at pos 2: l consonant, o vowel -> hyph[2] = '-'
    // non-ugly cleanup: hyph[1] = ' ' (already ' '), hyph[3] = ' ' (nchars-1=3)
    // But hyph[2] = '-' is not at pos 1 or nchars-1, so it stays
    let word = chars("talo");
    let mut hyph = vec![b' '; 4];
    rule_hyphenation(&word, &mut hyph, 4, false);
    assert_eq!(hyph[2], b'-');
}

#[test]
fn rule_hyphenation_no_ugly_vowel_pair() {
    // With ugly=false, consecutive vowels should not be split
    // "kauas" -> k(0) a(1) u(2) a(3) s(4)
    // -CV at pos 3 is 'a' (vowel) followed by 's' (consonant) -> no
    // -CV at pos 4: s followed by nothing (i <= nchars-2=3)
    // Actually -CV loop: skip to first vowel (i=1), loop i=1..3
    // i=1: a vowel -> no
    // i=2: u vowel -> no
    // i=3: a vowel -> no
    // No -CV breaks. V-V: (1,2) a,u -> "au" not in SPLIT_VOWELS.
    // (2,3) u,a -> "ua" IS in SPLIT_VOWELS -> hyph[3] = '-'
    // Non-ugly cleanup: a(2) vowel, a(3) vowel -> hyph[3] = ' '
    // So the V-V split at position 3 gets removed by the non-ugly rule.
    let word = chars("kauas");
    let mut hyph = vec![b' '; 5];
    rule_hyphenation(&word, &mut hyph, 5, false);
    assert_eq!(hyph[3], b' '); // suppressed by non-ugly rule
}

#[test]
fn rule_hyphenation_very_short_word() {
    // "aa" -> nchars <= 1? No, nchars=2. allowRuleHyphenation returns true.
    // But no -CV or V-V splits can happen in 2 chars.
    let word = chars("aa");
    let mut hyph = vec![b' '; 2];
    rule_hyphenation(&word, &mut hyph, 2, true);
    assert_eq!(hyph, vec![b' ', b' ']);
}

#[test]
fn rule_hyphenation_single_char() {
    // Single character: allowRuleHyphenation returns false
    let word = chars("a");
    let mut hyph = vec![b' '; 1];
    rule_hyphenation(&word, &mut hyph, 1, true);
    assert_eq!(hyph, vec![b' ']);
}

// -----------------------------------------------------------------------
// intersect/union tests
// -----------------------------------------------------------------------

#[test]
fn intersect_single() {
    let buffers = vec![vec![b' ', b'-', b' ', b'-', b' ']];
    let result = intersect_hyphenations(&buffers);
    assert_eq!(result.len(), 5);
    assert_eq!(result, " - - ");
}

#[test]
fn intersect_agreement() {
    let buffers = vec![
        vec![b' ', b'-', b' ', b'-', b' '],
        vec![b' ', b'-', b' ', b' ', b' '],
    ];
    let result = intersect_hyphenations(&buffers);
    // Only position 1 has '-' in both
    assert_eq!(result, " -   ");
}

#[test]
fn intersect_x_becomes_space() {
    let buffers = vec![vec![b'X', b'-', b'X']];
    let result = intersect_hyphenations(&buffers);
    assert_eq!(result, " - ");
}

#[test]
fn union_merges() {
    let buffers = vec![
        vec![b' ', b'-', b' ', b' ', b' '],
        vec![b' ', b' ', b' ', b'-', b' '],
    ];
    let result = union_hyphenations(&buffers);
    assert_eq!(result.len(), 5);
    assert_eq!(result, " - - ");
}

// -----------------------------------------------------------------------
// remove_extra_hyphenations tests
// -----------------------------------------------------------------------

#[test]
fn remove_extra_keeps_simple() {
    // One analysis with no compounds (min_parts=1), one with compounds (parts=2)
    // The compound one should be removed.
    let mut buffers = vec![
        vec![b' ', b' ', b' ', b' ', b' '], // 1 part
        vec![b' ', b' ', b'-', b' ', b' '],  // 2 parts
    ];
    remove_extra_hyphenations(&mut buffers, 5);
    assert_eq!(buffers.len(), 1);
    assert_eq!(buffers[0], vec![b' ', b' ', b' ', b' ', b' ']);
}

#[test]
fn remove_extra_keeps_all_if_all_compound() {
    // Both analyses have compound boundaries -> min_parts > 1, keep all
    let mut buffers = vec![
        vec![b' ', b' ', b'-', b' ', b' '], // 2 parts
        vec![b' ', b'-', b' ', b' ', b' '],  // 2 parts
    ];
    remove_extra_hyphenations(&mut buffers, 5);
    assert_eq!(buffers.len(), 2);
}

// -----------------------------------------------------------------------
// FinnishHyphenator integration tests (with mock analyzer)
// -----------------------------------------------------------------------

#[test]
fn hyphenate_unknown_word() {
    let hyp = FinnishHyphenator::new(NullAnalyzer, HyphenatorOptions::default());
    let result = hyphenate_str(&hyp, "koira");
    // Unknown word with hyphenate_unknown=true: rule hyphenation applied
    // "koira" -> rule: -CV at pos 3 -> " " " " " " "-" " "
    assert_eq!(result, "   - ");
    let rendered = render_hyphenation("koira", &result);
    assert_eq!(rendered, "koi-ra");
}

#[test]
fn hyphenate_unknown_word_forbidden() {
    let opts = HyphenatorOptions {
        hyphenate_unknown: false,
        ..Default::default()
    };
    let hyp = FinnishHyphenator::new(NullAnalyzer, opts);
    let result = hyphenate_str(&hyp, "koira");
    // Unknown + hyphenate_unknown=false -> all spaces (no hyphenation)
    assert_eq!(result, "     ");
}

#[test]
fn hyphenate_short_word() {
    let hyp = FinnishHyphenator::new(NullAnalyzer, HyphenatorOptions::default());
    let result = hyphenate_str(&hyp, "a");
    assert_eq!(result, " ");
}

#[test]
fn hyphenate_with_known_simple_word() {
    let mut analyzer = MockAnalyzer::new();
    // "koira" has STRUCTURE "=ppppp" (all lowercase, single morpheme)
    analyzer.add_word("koira", &["=ppppp"]);
    let hyp = FinnishHyphenator::new(analyzer, HyphenatorOptions::default());
    let result = hyphenate_str(&hyp, "koira");
    // Simple word -> compound_hyphenation calls rule_hyphenation on the whole word
    // -CV at pos 3 -> "   - "
    assert_eq!(result, "   - ");
}

#[test]
fn hyphenate_compound_word() {
    let mut analyzer = MockAnalyzer::new();
    // "koiranruoka" = "koiran" + "ruoka", STRUCTURE "=pppppp=ppppp"
    // Wait, "koiran" is 6 chars, "ruoka" is 5 chars = 11 total
    // STRUCTURE: =pppppp=ppppp (=p*6 =p*5)
    analyzer.add_word("koiranruoka", &["=pppppp=ppppp"]);
    let hyp = FinnishHyphenator::new(analyzer, HyphenatorOptions::default());
    let result = hyphenate_str(&hyp, "koiranruoka");
    // Compound boundary at position 6 ('-')
    // Rule hyphenation on "koiran" (pos 0-5, len 6):
    //   k(0) o(1) i(2) r(3) a(4) n(5)
    //   -CV: i starts at 1. i=1: o vowel->no. i=2: i vowel->no.
    //   i=3: r consonant, a(4) vowel -> hyph[3] = '-'
    //   i=4: a vowel -> no (i<=4, nchars-2=4) -> i=4: a vowel->no
    //   V-V: (1,2) o,i -> "oi" not in SPLIT_VOWELS -> no
    // Rule hyphenation on "ruoka" (pos 6-10, len 5):
    //   r(0) u(1) o(2) k(3) a(4)
    //   -CV: i starts at 1. i=1: u vowel->no. i=2: o vowel->no.
    //   i=3: k consonant, a(4) vowel -> hyph[3] = '-' -> global pos 9
    //   V-V: (1,2) u,o -> "uo" not in SPLIT_VOWELS -> no (it's a diphthong!)
    // Final: positions 3='-', 6='-', 9='-'
    assert_eq!(result.len(), 11);
    let rendered = render_hyphenation("koiranruoka", &result);
    assert_eq!(rendered, "koi-ran-ruo-ka");
}

#[test]
fn hyphenate_with_explicit_hyphen() {
    let mut analyzer = MockAnalyzer::new();
    // "maa-ala" with STRUCTURE "=ppp-=ppp"
    // m(0) a(1) a(2) -(3) a(4) l(5) a(6)
    analyzer.add_word("maa-ala", &["=ppp-=ppp"]);
    let hyp = FinnishHyphenator::new(analyzer, HyphenatorOptions::default());
    let result = hyphenate_str(&hyp, "maa-ala");
    // Position 3 should be '=' (explicit hyphen boundary)
    let result_bytes: Vec<u8> = result.bytes().collect();
    assert_eq!(result_bytes[3], b'=');
}

#[test]
fn hyphenate_preserves_diphthongs() {
    // Finnish diphthongs should NOT be split: ai, ei, oi, ui, yi, äi, öi,
    // au, eu, ou, iu, ie, uo, yö
    let hyp = FinnishHyphenator::new(NullAnalyzer, HyphenatorOptions::default());

    // "tie" (diphthong "ie") -> should not split
    let result = hyphenate_str(&hyp, "tie");
    assert_eq!(result, "   ");

    // "suo" (diphthong "uo") -> should not split
    let result = hyphenate_str(&hyp, "suo");
    assert_eq!(result, "   ");
}

#[test]
fn hyphenate_splits_non_diphthong_vowels() {
    let hyp = FinnishHyphenator::new(NullAnalyzer, HyphenatorOptions::default());

    // "kaupunki" -> should split "ea", "ao" etc if they occur
    // Let's test with a word that has splittable vowels
    // "teatteria" -> t(0) e(1) a(2) t(3) t(4) e(5) r(6) i(7) a(8)
    // -CV: skip to i=1. i=1: e vowel->no. i=2: a vowel->no.
    //   i=3: t consonant, t(4) consonant -> no.
    //   i=4: t consonant, e(5) vowel -> hyph[4] = '-'
    //   i=5: e vowel->no. i=6: r consonant, i(7) vowel -> hyph[6] = '-'
    //   i=7: i vowel->no (i<=7, nchars-2=7) -> i vowel->no
    // V-V: (1,2) e,a -> "ea" IS in SPLIT_VOWELS -> hyph[2] = '-'
    //   (7,8) i,a -> "ia" IS in SPLIT_VOWELS -> hyph[8] = '-'
    let result = hyphenate_str(&hyp, "teatteria");
    let rendered = render_hyphenation("teatteria", &result);
    assert_eq!(rendered, "te-at-te-ri-a");
}

#[test]
fn hyphenate_long_vowel_boundaries() {
    let hyp = FinnishHyphenator::new(NullAnalyzer, HyphenatorOptions::default());

    // "aamu" -> a(0) a(1) m(2) u(3)
    // -CV: skip to i=0 (a is vowel). i=0: a vowel->no.
    //   i=1: a vowel->no. i=2: m consonant, u(3) vowel -> hyph[2]='-'
    // Long vowel rule: i=1: a(1)==a(2)? No, a(1)!=m(2). Hmm wait:
    // i ranges 1..nchars-1=3, so i=1,2.
    // i=1: word[1]='a', word[2]='m' -> not equal, skip.
    // No long vowel rule fires. Just -CV.
    // Result: "  - " -> "aa-mu"
    let result = hyphenate_str(&hyp, "aamu");
    let rendered = render_hyphenation("aamu", &result);
    assert_eq!(rendered, "aa-mu");
}

#[test]
fn hyphenate_long_vowel_with_surrounding() {
    let hyp = FinnishHyphenator::new(NullAnalyzer, HyphenatorOptions::default());

    // "aatto" -> a(0) a(1) t(2) t(3) o(4)
    // -CV: skip leading consonants? a is vowel, so i=0.
    // Loop i=0..3: i=0: a vowel->no. i=1: a vowel->no.
    //   i=2: t consonant, t(3) consonant->no.
    //   i=3: t consonant, o(4) vowel -> hyph[3]='-'
    // Long vowel: i=1: a(1)==a(2)? a!=t, no.
    //   i=0: actually the loop is i=1..nchars-1=4, so i=1,2,3.
    //   Wait, range is 1..nchars.saturating_sub(1)=4 exclusive, so i=1,2,3.
    //   i=1: word[1]='a', word[2]='t' -> no.
    // No long vowel fires because "aa" is at the start and the chars are
    // word_lower[0]='a', word_lower[1]='a'. The loop starts at i=1:
    // i=1: is_vowel('a') and 'a'=='t'? No.
    // Hmm, word_lower[1]='a' and word_lower[2]='t'. Not equal.
    // But word_lower[0]='a' and word_lower[1]='a' -- the loop starts at i=1
    // but the check is word[i]==word[i+1], so i=1 checks word[1] vs word[2].
    // For "aatto" that's 'a' vs 't' -- not equal.
    // The check for i=0 would be word[0] vs word[1] = 'a' vs 'a', but the
    // loop starts at i=1 not i=0. This is correct -- the C++ code also
    // starts at i=1: `for (i = 1; i < nchars - 1; i++)`.
    // So the "aa" at the beginning doesn't trigger the long vowel rule through
    // this path. The "aa" is simply not split because it's at positions 0,1.
    let result = hyphenate_str(&hyp, "aatto");
    let rendered = render_hyphenation("aatto", &result);
    assert_eq!(rendered, "aat-to");
}

#[test]
fn hyphenate_multiple_analyses_intersection() {
    let mut analyzer = MockAnalyzer::new();
    // Two analyses for the same word with different compound boundaries
    // Analysis 1: split at position 3
    // Analysis 2: no split
    analyzer.add_word(
        "koira",
        &["=ppppp", "=pp=ppp"], // second one splits at pos 2
    );
    let hyp = FinnishHyphenator::new(analyzer, HyphenatorOptions::default());
    let result = hyphenate_str(&hyp, "koira");
    // With two analyses, the intersection means only positions where
    // BOTH agree get a hyphen. Since one has no compound boundary and
    // one has a boundary at 2, the rule hyphenation results may differ.
    // The intersection will be conservative.
    assert_eq!(result.len(), 5);
}

#[test]
fn hyphenate_kissa_unknown() {
    let hyp = FinnishHyphenator::new(NullAnalyzer, HyphenatorOptions::default());
    let result = hyphenate_str(&hyp, "kissa");
    let rendered = render_hyphenation("kissa", &result);
    assert_eq!(rendered, "kis-sa");
}

#[test]
fn all_possible_union() {
    let mut analyzer = MockAnalyzer::new();
    // Two analyses: one allows a split, one doesn't
    analyzer.add_word("koira", &["=ppppp"]);
    let hyp = FinnishHyphenator::new(analyzer, HyphenatorOptions::default());
    let result = hyp.all_possible_hyphen_positions(&chars("koira"));
    // Single analysis, so union == intersection
    assert_eq!(result, "   - ");
}

#[test]
fn hyphenate_empty() {
    let hyp = FinnishHyphenator::new(NullAnalyzer, HyphenatorOptions::default());
    let result = hyp.hyphenate(&[]);
    assert_eq!(result, "");
}

// -----------------------------------------------------------------------
// Edge case tests
// -----------------------------------------------------------------------

#[test]
fn hyphenate_all_consonants() {
    let hyp = FinnishHyphenator::new(NullAnalyzer, HyphenatorOptions::default());
    let result = hyphenate_str(&hyp, "krst");
    // No vowels -> no meaningful hyphenation
    // -CV rule: skip leading consonants -> i goes past all chars.
    // No breaks.
    assert_eq!(result, "    ");
}

#[test]
fn hyphenate_all_vowels() {
    let hyp = FinnishHyphenator::new(NullAnalyzer, HyphenatorOptions::default());
    let result = hyphenate_str(&hyp, "aeiou");
    // No consonants -> -CV never fires
    // V-V: ae(pos 1) in SPLIT_VOWELS -> hyph[1]='-'
    //   ei(pos 2) not in SPLIT_VOWELS (diphthong)
    //   io(pos 3) in SPLIT_VOWELS -> hyph[3]='-'
    //   ou(pos 4) not in SPLIT_VOWELS (diphthong)
    // VV-V: check "ie","ai" at each pos
    //   pos 0: a,e -> not in SPLIT_AFTER
    //   pos 1: e,i -> not in SPLIT_AFTER
    //   pos 2: nothing (nchars-3=2, loop is 0..2)
    // Wait, SPLIT_AFTER has "ie" and "ai". Let me re-check pos 0:
    //   word[0]='a', word[1]='e' -> not "ie" or "ai"
    //   pos 1: word[1]='e', word[2]='i' -> not "ie" (it's "ei") or "ai"
    // Actually wait, the loop for VV-V is i in 0..nchars-3. nchars=5, so 0..2.
    //   i=0: 'a','e' -> no match
    //   i=1: 'e','i' -> no match
    // Result: " -  - " wait that's 6 chars. Let me recount.
    // 5 chars: a(0) e(1) i(2) o(3) u(4)
    // hyph: [' ', '-', ' ', '-', ' '] -> " - - "
    let result_bytes: Vec<u8> = result.bytes().collect();
    assert_eq!(result_bytes[1], b'-');
    assert_eq!(result_bytes[3], b'-');
    assert_eq!(result.len(), 5);
}

#[test]
fn hyphenate_with_hyphen_in_unknown_word() {
    let hyp = FinnishHyphenator::new(NullAnalyzer, HyphenatorOptions::default());
    // Word with an explicit hyphen: "maa-ala"
    let result = hyphenate_str(&hyp, "maa-ala");
    // Unknown word: buffer starts with spaces, explicit '-' at pos 3 -> '='
    let result_bytes: Vec<u8> = result.bytes().collect();
    assert_eq!(result_bytes[3], b'=');
}

#[test]
fn hyphenate_min_length() {
    let opts = HyphenatorOptions {
        min_hyphenated_word_length: 5,
        ..Default::default()
    };
    let hyp = FinnishHyphenator::new(NullAnalyzer, opts);
    // "talo" has 4 chars < min 5 -> no hyphenation
    let result = hyphenate_str(&hyp, "talo");
    assert_eq!(result, "    ");
}

#[test]
fn hyphenate_apostrophe() {
    let hyp = FinnishHyphenator::new(NullAnalyzer, HyphenatorOptions::default());
    // "vast'edes" -> apostrophe before vowel
    // v(0) a(1) s(2) t(3) '(4) e(5) d(6) e(7) s(8)
    let result = hyphenate_str(&hyp, "vast'edes");
    let result_bytes: Vec<u8> = result.bytes().collect();
    // Rule 2: 'V at pos 4: '(4) followed by e(5) vowel -> hyph[4] = '='
    assert_eq!(result_bytes[4], b'=');
}

#[test]
fn hyphenate_url_not_ugly() {
    let opts = HyphenatorOptions {
        ugly_hyphenation: false,
        ..Default::default()
    };
    let hyp = FinnishHyphenator::new(NullAnalyzer, opts);
    // URL-like strings should not be hyphenated when ugly is off
    let w = "http://example.com";
    let result = hyphenate_str(&hyp, w);
    // is_nonword returns true -> allow_rule_hyphenation returns false
    // So no rule hyphenation applied
    assert!(result.chars().all(|c| c == ' '));
}

#[test]
fn hyphenate_word_ending_digit_not_ugly() {
    let opts = HyphenatorOptions {
        ugly_hyphenation: false,
        ..Default::default()
    };
    let hyp = FinnishHyphenator::new(NullAnalyzer, opts);
    let result = hyphenate_str(&hyp, "abc123");
    // Ends with digit, ugly=false -> no rule hyphenation
    assert!(result.chars().all(|c| c == ' '));
}

#[test]
fn hyphenate_long_consonant_cluster() {
    let hyp = FinnishHyphenator::new(NullAnalyzer, HyphenatorOptions::default());
    // Test with "zh" cluster: a word containing "azha"
    // a(0) z(1) h(2) a(3)
    // -CV: skip to i=0 (a is vowel).
    //   i=0: a vowel -> no.
    //   i=1: z consonant, h(2) consonant -> no.
    //   i=2: h consonant, a(3) vowel -> hyph[2]='-'
    // Long consonant check: i=1: "zh" matches LONG_CONSONANTS
    //   clen=2, i+clen=3 < nchars=4. Check k=2..2:
    //   hyph[2]=='-' -> move to hyph[1]='-', hyph[2]=' '
    let result = hyphenate_str(&hyp, "azha");
    let result_bytes: Vec<u8> = result.bytes().collect();
    assert_eq!(result_bytes[1], b'-'); // moved before the cluster
    assert_eq!(result_bytes[2], b' '); // cleared
}

#[test]
fn mod_nonword_needs_a_character_after_the_dot() {
    let w = chars("ab@cd.");
    assert!(!is_nonword(&w, w.len()));
    let w = chars("http://x.");
    assert!(!is_nonword(&w, w.len()));
    let w = chars("www.abc.");
    assert!(!is_nonword(&w, w.len()));
    let w = chars("ab@cd.e");
    assert!(is_nonword(&w, w.len()));
}

#[test]
fn single_reading_gives_same_breaks_both_ways() {
    let mut analyzer = MockAnalyzer::new();
    analyzer.add_word("koirankoppi", &["=ppppp=pppppp"]);
    let hyp = FinnishHyphenator::new(analyzer, HyphenatorOptions::default());
    let w = chars("koirankoppi");
    assert_eq!(hyp.hyphenate(&w), hyp.all_possible_hyphen_positions(&w));
    let unknown = chars("talossa");
    assert_eq!(hyp.hyphenate(&unknown), hyp.all_possible_hyphen_positions(&unknown));
}
