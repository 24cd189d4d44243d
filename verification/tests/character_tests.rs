use voikko::character::{
    equals_ignore_case, get_char_type, is_consonant, is_finnish_quotation_mark, is_lower, is_upper,
    is_vowel, is_whitespace, simple_lower, simple_upper, CharType,
};

// -- CharType tests --

#[test]
fn char_type_letters() {
    assert_eq!(get_char_type('A'), CharType::Letter);
    assert_eq!(get_char_type('z'), CharType::Letter);
    assert_eq!(get_char_type('\u{00C4}'), CharType::Letter); // Ä
    assert_eq!(get_char_type('\u{00F6}'), CharType::Letter); // ö
}

#[test]
fn char_type_c0_is_not_letter() {
    // U+00C0 (À) is NOT classified as a letter in the C++ code (range starts at 0xC1)
    assert_ne!(get_char_type('\u{00C0}'), CharType::Letter);
}

#[test]
fn char_type_digits() {
    assert_eq!(get_char_type('0'), CharType::Digit);
    assert_eq!(get_char_type('9'), CharType::Digit);
}

#[test]
fn char_type_whitespace() {
    assert_eq!(get_char_type(' '), CharType::Whitespace);
    assert_eq!(get_char_type('\t'), CharType::Whitespace);
    assert_eq!(get_char_type('\n'), CharType::Whitespace);
}

#[test]
fn char_type_punctuation() {
    assert_eq!(get_char_type('.'), CharType::Punctuation);
    assert_eq!(get_char_type(','), CharType::Punctuation);
    assert_eq!(get_char_type('!'), CharType::Punctuation);
    assert_eq!(get_char_type('\u{2013}'), CharType::Punctuation); // EN DASH
}

#[test]
fn char_type_finnish_quotation() {
    assert_eq!(get_char_type('"'), CharType::Punctuation);
    assert_eq!(get_char_type('\u{00BB}'), CharType::Punctuation); // »
    assert_eq!(get_char_type('\u{201D}'), CharType::Punctuation); // "
}

#[test]
fn char_type_unknown() {
    assert_eq!(get_char_type('@'), CharType::Unknown);
    assert_eq!(get_char_type('#'), CharType::Unknown);
}

// -- Finnish quotation marks --

#[test]
fn finnish_quotation_marks() {
    assert!(is_finnish_quotation_mark('"'));
    assert!(is_finnish_quotation_mark('\u{00BB}')); // »
    assert!(is_finnish_quotation_mark('\u{201D}')); // "
    assert!(!is_finnish_quotation_mark('\''));
    assert!(!is_finnish_quotation_mark('\u{201C}')); // " left double
}

// -- Vowel / Consonant tests --

#[test]
fn finnish_vowels() {
    assert!(is_vowel('a'));
    assert!(is_vowel('A'));
    assert!(is_vowel('e'));
    assert!(is_vowel('\u{00E4}')); // ä
    assert!(is_vowel('\u{00C4}')); // Ä
    assert!(is_vowel('\u{00F6}')); // ö
    assert!(is_vowel('\u{00D6}')); // Ö
    assert!(!is_vowel('b'));
    assert!(!is_vowel('k'));
}

#[test]
fn finnish_consonants() {
    assert!(is_consonant('b'));
    assert!(is_consonant('k'));
    assert!(is_consonant('K'));
    assert!(is_consonant('\u{0161}')); // š
    assert!(is_consonant('\u{0160}')); // Š
    assert!(!is_consonant('a'));
    assert!(!is_consonant('1'));
}

// -- Case functions --

#[test]
fn simple_lower_basic_latin() {
    assert_eq!(simple_lower('A'), 'a');
    assert_eq!(simple_lower('Z'), 'z');
    assert_eq!(simple_lower('a'), 'a');
}

#[test]
fn simple_lower_extended() {
    assert_eq!(simple_lower('\u{00C4}'), '\u{00E4}'); // Ä -> ä
    assert_eq!(simple_lower('\u{00D6}'), '\u{00F6}'); // Ö -> ö
}

#[test]
fn simple_upper_basic_latin() {
    assert_eq!(simple_upper('a'), 'A');
    assert_eq!(simple_upper('z'), 'Z');
    assert_eq!(simple_upper('A'), 'A');
}

#[test]
fn simple_upper_extended() {
    assert_eq!(simple_upper('\u{00E4}'), '\u{00C4}'); // ä -> Ä
    assert_eq!(simple_upper('\u{00F6}'), '\u{00D6}'); // ö -> Ö
}

#[test]
fn is_upper_basic() {
    assert!(is_upper('A'));
    assert!(is_upper('Z'));
    assert!(is_upper('\u{00C4}')); // Ä
    assert!(!is_upper('a'));
    assert!(!is_upper('1'));
}

#[test]
fn is_upper_schwa() {
    // LATIN CAPITAL LETTER SCHWA is special-cased
    assert!(is_upper('\u{018F}'));
}

#[test]
fn is_lower_basic() {
    assert!(is_lower('a'));
    assert!(is_lower('z'));
    assert!(is_lower('\u{00E4}')); // ä
    assert!(!is_lower('A'));
    assert!(!is_lower('1'));
}

#[test]
fn whitespace_chars() {
    assert!(is_whitespace(' '));
    assert!(is_whitespace('\t'));
    assert!(is_whitespace('\n'));
    assert!(is_whitespace('\r'));
    assert!(is_whitespace('\u{00A0}')); // NO-BREAK SPACE
    assert!(is_whitespace('\u{3000}')); // IDEOGRAPHIC SPACE
    assert!(!is_whitespace('a'));
    assert!(!is_whitespace('0'));
}

#[test]
fn equals_ignore_case_basic() {
    let a: Vec<char> = "Hello".chars().collect();
    let b: Vec<char> = "hello".chars().collect();
    let c: Vec<char> = "HELLO".chars().collect();
    let d: Vec<char> = "world".chars().collect();
    assert!(equals_ignore_case(&a, &b));
    assert!(equals_ignore_case(&a, &c));
    assert!(!equals_ignore_case(&a, &d));
}

#[test]
fn equals_ignore_case_different_lengths() {
    let a: Vec<char> = "ab".chars().collect();
    let b: Vec<char> = "abc".chars().collect();
    assert!(!equals_ignore_case(&a, &b));
}

#[test]
fn equals_ignore_case_empty() {
    assert!(equals_ignore_case(&[], &[]));
}
