//! Matching a word's letter case against a STRUCTURE attribute.

use vstd::prelude::*;
use crate::character::{is_lower, is_upper, spec_is_lower, spec_is_upper};
use crate::enums::SpellResult;
use crate::text::str_to_chars;

verus! {

/// The STRUCTURE letters of a structure string: everything but the
/// compound boundary markers `=`, in order.
pub open spec fn structure_letters(st: Seq<char>) -> Seq<char>
    decreases st.len(),
{
    if st.len() == 0 {
        Seq::empty()
    } else if st.last() == '=' {
        structure_letters(st.drop_last())
    } else {
        structure_letters(st.drop_last()).push(st.last())
    }
}

/// A lowercase letter stands where STRUCTURE wants an uppercase one.
pub open spec fn lower_where_upper_expected(c: char, code: char) -> bool {
    !spec_is_upper(c) && spec_is_lower(c) && (code == 'i' || code == 'j')
}

/// An uppercase letter stands where STRUCTURE wants a lowercase one.
pub open spec fn upper_where_lower_expected(c: char, code: char) -> bool {
    spec_is_upper(c) && (code == 'p' || code == 'q')
}

/// Number of word characters that have a STRUCTURE letter to compare with.
pub open spec fn paired_len(word: Seq<char>, letters: Seq<char>) -> int {
    if word.len() < letters.len() {
        word.len() as int
    } else {
        letters.len() as int
    }
}

/// The i-th character of the word breaks the STRUCTURE in a way that is
/// more than a capitalized first letter.
pub open spec fn is_case_error_at(word: Seq<char>, letters: Seq<char>, i: int) -> bool {
    upper_where_lower_expected(word[i], letters[i]) || (i > 0 && lower_where_upper_expected(
        word[i],
        letters[i],
    ))
}

/// The i-th word character is compared with the i-th STRUCTURE letter.
/// A case error anywhere gives `CapitalizationError`; otherwise a lowercase
/// first letter where uppercase is wanted gives `CapitalizeFirst`;
/// otherwise the word is `Correct`.
pub open spec fn spec_match_word_and_analysis(word: Seq<char>, structure: Seq<char>) -> SpellResult {
    let letters = structure_letters(structure);
    let n = paired_len(word, letters);
    if exists|i: int| 0 <= i < n && #[trigger] is_case_error_at(word, letters, i) {
        SpellResult::CapitalizationError
    } else if n > 0 && lower_where_upper_expected(word[0], letters[0]) {
        SpellResult::CapitalizeFirst
    } else {
        SpellResult::Correct
    }
}

/// Match a word's letter cases against the expected STRUCTURE pattern.
///
/// STRUCTURE codes: `=` compound boundary (skipped), `p`/`q` lowercase letter,
/// `i`/`j` uppercase letter; other codes accept any case.
pub fn match_word_and_analysis(word: &[char], structure: &str) -> (r: SpellResult)
    ensures
        r == spec_match_word_and_analysis(word@, structure@),
        r != SpellResult::Failed,
{
    let st = str_to_chars(structure);
    let mut letters: Vec<char> = Vec::new();
    let mut j: usize = 0;
    while j < st.len()
        invariant
            j <= st@.len(),
            letters@ == structure_letters(st@.take(j as int)),
        decreases st.len() - j,
    {
        assert(st@.take(j + 1).drop_last() =~= st@.take(j as int));
        if st[j] != '=' {
            letters.push(st[j]);
        }
        j += 1;
    }
    assert(st@.take(st@.len() as int) =~= st@);
    let ghost ls = letters@;
    let n = if word.len() < letters.len() {
        word.len()
    } else {
        letters.len()
    };
    let mut result = SpellResult::Correct;
    let mut i: usize = 0;
    while i < n
        invariant
            ls == letters@,
            ls == structure_letters(structure@),
            n == paired_len(word@, ls),
            n <= word@.len(),
            n <= ls.len(),
            i <= n,
            forall|k: int| 0 <= k < i ==> !#[trigger] is_case_error_at(word@, ls, k),
            result == (if i > 0 && lower_where_upper_expected(word@[0], ls[0]) {
                SpellResult::CapitalizeFirst
            } else {
                SpellResult::Correct
            }),
        decreases n - i,
    {
        let ch = word[i];
        let code = letters[i];
        let up = is_upper(ch);
        let low = is_lower(ch);
        if !up && low && (code == 'i' || code == 'j') {
            if i == 0 {
                result = SpellResult::CapitalizeFirst;
            } else {
                assert(is_case_error_at(word@, ls, i as int));
                return SpellResult::CapitalizationError;
            }
        }
        if up && (code == 'p' || code == 'q') {
            assert(is_case_error_at(word@, ls, i as int));
            return SpellResult::CapitalizationError;
        }
        i += 1;
    }
    result
}

} // verus!
