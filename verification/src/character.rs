//! Character classification and simple case conversion.

use vstd::prelude::*;

verus! {

/// Character type classification.
#[derive(Debug, Clone, Copy, PartialEq, Eq, Hash)]
pub enum CharType {
    Unknown,
    Letter,
    Digit,
    Whitespace,
    Punctuation,
}

/// Code points treated as letters.
pub open spec fn is_letter_code(cp: u32) -> bool {
    ||| 0x41 <= cp <= 0x5A
    ||| 0x61 <= cp <= 0x7A
    ||| 0xC1 <= cp <= 0xD6
    ||| 0xD8 <= cp <= 0xF6
    ||| 0x00F8 <= cp <= 0x02AF
    ||| 0x0400 <= cp <= 0x0481
    ||| 0x048A <= cp <= 0x0527
    ||| 0x1400 <= cp <= 0x15C3
    ||| 0xFB00 <= cp <= 0xFB04
}

/// Code points treated as whitespace.
pub open spec fn is_whitespace_code(cp: u32) -> bool {
    ||| 0x09 <= cp <= 0x0D
    ||| cp == 0x20
    ||| cp == 0x85
    ||| cp == 0xA0
    ||| cp == 0x1680
    ||| cp == 0x180E
    ||| 0x2000 <= cp <= 0x200A
    ||| cp == 0x2028
    ||| cp == 0x2029
    ||| cp == 0x202F
    ||| cp == 0x205F
    ||| cp == 0x3000
}

pub open spec fn spec_is_whitespace(c: char) -> bool {
    is_whitespace_code(c as u32)
}

/// Punctuation characters recognized by the tokenizer.
pub open spec fn spec_is_punctuation_char(c: char) -> bool {
    c == '.' || c == ',' || c == ';' || c == '-' || c == '!' || c == '?' || c == ':'
        || c == '\'' || c == '(' || c == ')' || c == '[' || c == ']' || c == '{' || c == '}'
        || c == '/' || c == '&' || c == '\u{00AD}' || c == '\u{2019}' || c == '\u{2010}'
        || c == '\u{2011}' || c == '\u{2013}' || c == '\u{2014}' || c == '\u{201C}'
        || c == '\u{2026}'
}

pub open spec fn spec_is_finnish_quotation_mark(c: char) -> bool {
    c == '"' || c == '\u{00BB}' || c == '\u{201D}'
}

pub open spec fn spec_is_ascii_digit(c: char) -> bool {
    '0' <= c <= '9'
}

pub open spec fn spec_char_type(c: char) -> CharType {
    if is_letter_code(c as u32) {
        CharType::Letter
    } else if spec_is_whitespace(c) {
        CharType::Whitespace
    } else if spec_is_punctuation_char(c) || spec_is_finnish_quotation_mark(c) {
        CharType::Punctuation
    } else if spec_is_ascii_digit(c) {
        CharType::Digit
    } else {
        CharType::Unknown
    }
}

/// Classify a character as letter, digit, whitespace, punctuation or unknown.
pub fn get_char_type(c: char) -> (r: CharType)
    ensures
        r == spec_char_type(c),
{
    let cp = c as u32;
    if (0x41 <= cp && cp <= 0x5A) || (0x61 <= cp && cp <= 0x7A) || (0xC1 <= cp && cp <= 0xD6)
        || (0xD8 <= cp && cp <= 0xF6) || (0x00F8 <= cp && cp <= 0x02AF) || (0x0400 <= cp && cp
        <= 0x0481) || (0x048A <= cp && cp <= 0x0527) || (0x1400 <= cp && cp <= 0x15C3) || (0xFB00
        <= cp && cp <= 0xFB04) {
        return CharType::Letter;
    }
    if is_whitespace(c) {
        return CharType::Whitespace;
    }
    if is_punctuation_char(c) {
        return CharType::Punctuation;
    }
    if is_finnish_quotation_mark(c) {
        return CharType::Punctuation;
    }
    if is_ascii_digit(c) {
        return CharType::Digit;
    }
    CharType::Unknown
}

/// Whether `c` is one of the ASCII digits `0`..`9`.
pub fn is_ascii_digit(c: char) -> (r: bool)
    ensures
        r == spec_is_ascii_digit(c),
{
    '0' <= c && c <= '9'
}

fn is_punctuation_char(c: char) -> (r: bool)
    ensures
        r == spec_is_punctuation_char(c),
{
    c == '.' || c == ',' || c == ';' || c == '-' || c == '!' || c == '?' || c == ':' || c
        == '\'' || c == '(' || c == ')' || c == '[' || c == ']' || c == '{' || c == '}' || c
        == '/' || c == '&' || c == '\u{00AD}' || c == '\u{2019}' || c == '\u{2010}' || c
        == '\u{2011}' || c == '\u{2013}' || c == '\u{2014}' || c == '\u{201C}' || c
        == '\u{2026}'
}

/// Whether `c` is a Finnish quotation mark: `"`, `»` or U+201D.
pub fn is_finnish_quotation_mark(c: char) -> (r: bool)
    ensures
        r == spec_is_finnish_quotation_mark(c),
{
    c == '"' || c == '\u{00BB}' || c == '\u{201D}'
}

/// Whether `c` is a whitespace character.
pub fn is_whitespace(c: char) -> (r: bool)
    ensures
        r == spec_is_whitespace(c),
{
    let cp = c as u32;
    (0x09 <= cp && cp <= 0x0D) || cp == 0x20 || cp == 0x85 || cp == 0xA0 || cp == 0x1680 || cp
        == 0x180E || (0x2000 <= cp && cp <= 0x200A) || cp == 0x2028 || cp == 0x2029 || cp
        == 0x202F || cp == 0x205F || cp == 0x3000
}


/// Whether `c` is one of the Finnish letters Å, Ä, Ö (U+00C5, U+00C4,
/// U+00D6).
pub open spec fn is_finnish_upper_extra(c: char) -> bool {
    c == '\u{00C4}' || c == '\u{00C5}' || c == '\u{00D6}'
}

/// Whether `c` is one of the Finnish letters å, ä, ö (U+00E5, U+00E4,
/// U+00F6).
pub open spec fn is_finnish_lower_extra(c: char) -> bool {
    c == '\u{00E4}' || c == '\u{00E5}' || c == '\u{00F6}'
}

/// The first character that `char::to_lowercase` yields for a character
/// outside ASCII other than Å, Ä, Ö, å, ä, ö: from the Unicode tables, only
/// named here.
pub uninterp spec fn other_lowercase_of(c: char) -> char;

/// The first character that `char::to_uppercase` yields for a character
/// outside ASCII other than Å, Ä, Ö, å, ä, ö: from the Unicode tables, only
/// named here.
pub uninterp spec fn other_uppercase_of(c: char) -> char;

/// Whether the lowercase and uppercase mappings of `c` are stated here
/// rather than named: ASCII and the Finnish letters Å, Ä, Ö, å, ä, ö.
pub open spec fn case_mapping_stated(c: char) -> bool {
    (c as u32) < 0x80 || is_finnish_upper_extra(c) || is_finnish_lower_extra(c)
}

/// The first character that `char::to_lowercase` yields for `c`: `A`–`Z`
/// and Å, Ä, Ö map to `a`–`z` and å, ä, ö (32 code points up), other ASCII
/// characters and å, ä, ö to themselves, the rest as the Unicode tables say.
pub open spec fn lowercase_of(c: char) -> char {
    if ('A' <= c && c <= 'Z') || is_finnish_upper_extra(c) {
        ((c as int) + 32) as char
    } else if case_mapping_stated(c) {
        c
    } else {
        other_lowercase_of(c)
    }
}

/// The first character that `char::to_uppercase` yields for `c`: `a`–`z`
/// and å, ä, ö map to `A`–`Z` and Å, Ä, Ö (32 code points down), other
/// ASCII characters and Å, Ä, Ö to themselves, the rest as the Unicode
/// tables say.
pub open spec fn uppercase_of(c: char) -> char {
    if ('a' <= c && c <= 'z') || is_finnish_lower_extra(c) {
        ((c as int) - 32) as char
    } else if case_mapping_stated(c) {
        c
    } else {
        other_uppercase_of(c)
    }
}

/// Calls `char::to_lowercase` and takes the first character of the mapping.
/// The standard library documents that the mapping yields one or more
/// characters, so the first one always exists. It follows the Unicode
/// tables: ASCII letters and Å, Ä, Ö map to their lowercase letters, other
/// ASCII characters and å, ä, ö to themselves; the rest is only named.
#[verifier::external_body]
fn first_of_to_lowercase(c: char) -> (r: Option<char>)
    ensures
        r == Some(lowercase_of(c)),
        !case_mapping_stated(c) ==> r == Some(other_lowercase_of(c)),
{
    c.to_lowercase().next()
}

/// Calls `char::to_uppercase` and takes the first character of the mapping.
/// As for the lowercase mapping, the first character always exists: ASCII
/// letters and å, ä, ö map to their uppercase letters, other ASCII
/// characters and Å, Ä, Ö to themselves; the rest is only named.
#[verifier::external_body]
fn first_of_to_uppercase(c: char) -> (r: Option<char>)
    ensures
        r == Some(uppercase_of(c)),
        !case_mapping_stated(c) ==> r == Some(other_uppercase_of(c)),
{
    c.to_uppercase().next()
}

/// Simple (one-to-one) lowercase mapping of a character.
pub fn simple_lower(c: char) -> (r: char)
    ensures
        r == lowercase_of(c),
{
    match first_of_to_lowercase(c) {
        Some(l) => l,
        None => c,
    }
}

/// Simple (one-to-one) uppercase mapping of a character.
pub fn simple_upper(c: char) -> (r: char)
    ensures
        r == uppercase_of(c),
{
    match first_of_to_uppercase(c) {
        Some(u) => u,
        None => c,
    }
}

pub open spec fn spec_is_upper(c: char) -> bool {
    c != lowercase_of(c) || c == '\u{018F}'
}

pub open spec fn spec_is_lower(c: char) -> bool {
    c != uppercase_of(c)
}

/// Whether `c` is an uppercase letter.
pub fn is_upper(c: char) -> (r: bool)
    ensures
        r == spec_is_upper(c),
{
    c != simple_lower(c) || c == '\u{018F}'
}

/// Whether `c` is a lowercase letter.
pub fn is_lower(c: char) -> (r: bool)
    ensures
        r == spec_is_lower(c),
{
    c != simple_upper(c)
}

/// Finnish vowels in lowercase: a e i o u y ä ö.
pub open spec fn is_lower_vowel(c: char) -> bool {
    c == 'a' || c == 'e' || c == 'i' || c == 'o' || c == 'u' || c == 'y' || c == '\u{00E4}'
        || c == '\u{00F6}'
}

/// Finnish consonants in lowercase: b c d f g h j k l m n p q r s t v w x z š ž.
pub open spec fn is_lower_consonant(c: char) -> bool {
    c == 'b' || c == 'c' || c == 'd' || c == 'f' || c == 'g' || c == 'h' || c == 'j' || c == 'k'
        || c == 'l' || c == 'm' || c == 'n' || c == 'p' || c == 'q' || c == 'r' || c == 's' || c
        == 't' || c == 'v' || c == 'w' || c == 'x' || c == 'z' || c == '\u{0161}' || c
        == '\u{017E}'
}

pub open spec fn spec_is_vowel(c: char) -> bool {
    is_lower_vowel(lowercase_of(c))
}

pub open spec fn spec_is_consonant(c: char) -> bool {
    is_lower_consonant(lowercase_of(c))
}

/// Whether `c` is a Finnish vowel, ignoring case.
pub fn is_vowel(c: char) -> (r: bool)
    ensures
        r == spec_is_vowel(c),
{
    let l = simple_lower(c);
    l == 'a' || l == 'e' || l == 'i' || l == 'o' || l == 'u' || l == 'y' || l == '\u{00E4}' || l
        == '\u{00F6}'
}

/// Whether `c` is a Finnish consonant, ignoring case.
pub fn is_consonant(c: char) -> (r: bool)
    ensures
        r == spec_is_consonant(c),
{
    let l = simple_lower(c);
    l == 'b' || l == 'c' || l == 'd' || l == 'f' || l == 'g' || l == 'h' || l == 'j' || l == 'k'
        || l == 'l' || l == 'm' || l == 'n' || l == 'p' || l == 'q' || l == 'r' || l == 's' || l
        == 't' || l == 'v' || l == 'w' || l == 'x' || l == 'z' || l == '\u{0161}' || l
        == '\u{017E}'
}

/// Two character sequences are equal when compared letter by letter
/// through the simple lowercase mapping.
pub open spec fn spec_equals_ignore_case(a: Seq<char>, b: Seq<char>) -> bool {
    a.len() == b.len() && forall|i: int| 0 <= i < a.len() ==> lowercase_of(#[trigger] a[i])
        == lowercase_of(b[i])
}

/// Compare two character slices for equality, ignoring case.
pub fn equals_ignore_case(a: &[char], b: &[char]) -> (r: bool)
    ensures
        r == spec_equals_ignore_case(a@, b@),
{
    if a.len() != b.len() {
        return false;
    }
    let mut i: usize = 0;
    while i < a.len()
        invariant
            a.len() == b.len(),
            i <= a.len(),
            forall|k: int| 0 <= k < i ==> lowercase_of(#[trigger] a@[k]) == lowercase_of(b@[k]),
        decreases a.len() - i,
    {
        if simple_lower(a[i]) != simple_lower(b[i]) {
            return false;
        }
        i += 1;
    }
    true
}

} // verus!
