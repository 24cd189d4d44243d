//! The top-level spell check: normalization, option handling, case
//! detection and mapping of speller results to the public answer.

use vstd::prelude::*;
use vstd::slice::{slice_subrange, SliceAdditionalExecFns};
use crate::case::{detect_case, spec_detect_case, CaseType, has_upper_from, has_lower};
use crate::character::{
    is_upper, lowercase_of, simple_lower, spec_is_ascii_digit, spec_is_upper, spec_is_lower,
    uppercase_of,
};
use crate::enums::{SpellResult, MAX_WORD_CHARS};
use crate::speller::{answers_alike, ask_speller, speller_answer, Speller};

verus! {

/// Public answer: the word is correct.
pub const VOIKKO_SPELL_OK: i32 = 1;

/// Public answer: the word is misspelled.
pub const VOIKKO_SPELL_FAILED: i32 = 0;

/// Spell check options controlling how words are evaluated.
#[derive(Debug, Clone, Copy)]
pub struct SpellOptions {
    /// Ignore dot at the end of the word.
    pub ignore_dot: bool,
    /// Ignore words containing digits.
    pub ignore_numbers: bool,
    /// Accept words written entirely in uppercase without checking.
    pub ignore_uppercase: bool,
    /// Accept non-words (URLs, email addresses, etc.).
    pub ignore_nonwords: bool,
    /// Accept words where the first letter is uppercase.
    pub accept_first_uppercase: bool,
    /// Accept words where all letters are uppercase (still checks spelling).
    pub accept_all_uppercase: bool,
    /// Accept missing hyphens at start/end of word.
    pub accept_missing_hyphens: bool,
}

impl Default for SpellOptions {
    /// Defaults: non-words ignored, first and all uppercase accepted,
    /// everything else off.
    fn default() -> (r: Self)
        ensures
            !r.ignore_dot,
            !r.ignore_numbers,
            !r.ignore_uppercase,
            r.ignore_nonwords,
            r.accept_first_uppercase,
            r.accept_all_uppercase,
            !r.accept_missing_hyphens,
    {
        SpellOptions {
            ignore_dot: false,
            ignore_numbers: false,
            ignore_uppercase: false,
            ignore_nonwords: true,
            accept_first_uppercase: true,
            accept_all_uppercase: true,
            accept_missing_hyphens: false,
        }
    }
}

/// `p` is the first position before `to` that holds `c`.
pub open spec fn is_first_index(w: Seq<char>, c: char, p: int, to: int) -> bool {
    0 <= p < to && w[p] == c && forall|k: int| 0 <= k < p ==> w[k] != c
}

/// Some position in `from..to` holds `c`.
pub open spec fn contains_between(w: Seq<char>, c: char, from: int, to: int) -> bool {
    exists|k: int| from <= k < to && w[k] == c
}

/// A URL (`X*//X*.X+`), an email address (`X*@X+.X+`) or a `www.X+.X+`
/// name: after the separator, a dot with at least one character before it
/// (for the email and `www.` forms) and at least one after it.
pub open spec fn spec_is_nonword(w: Seq<char>) -> bool {
    w.len() >= 4 && ((exists|p: int|
        #[trigger] is_first_index(w, '/', p, w.len() - 3) && w[p + 1] == '/' && contains_between(
            w,
            '.',
            p + 2,
            w.len() - 1,
        )) || (exists|p: int|
        #[trigger] is_first_index(w, '@', p, w.len() as int) && contains_between(
            w,
            '.',
            p + 2,
            w.len() - 1,
        )) || (w.len() >= 5 && lowercase_of(w[0]) == 'w' && lowercase_of(w[1]) == 'w'
        && lowercase_of(w[2]) == 'w' && w[3] == '.' && contains_between(w, '.', 5, w.len() - 1)))
}

fn find_first(word: &[char], c: char, to: usize) -> (r: Option<usize>)
    requires
        to <= word@.len(),
    ensures
        r matches Some(p) ==> is_first_index(word@, c, p as int, to as int),
        r is None ==> forall|p: int| !#[trigger] is_first_index(word@, c, p, to as int),
{
    let mut i: usize = 0;
    while i < to
        invariant
            to <= word@.len(),
            i <= to,
            forall|k: int| 0 <= k < i ==> word@[k] != c,
        decreases to - i,
    {
        if word[i] == c {
            return Some(i);
        }
        i += 1;
    }
    None
}

fn contains_char_between(word: &[char], c: char, from: usize, to: usize) -> (r: bool)
    requires
        to <= word@.len(),
    ensures
        r == contains_between(word@, c, from as int, to as int),
{
    let mut i = from;
    while i < to
        invariant
            to <= word@.len(),
            from <= i,
            forall|k: int| from <= k < i && k < to ==> word@[k] != c,
        decreases to - i,
    {
        if word[i] == c {
            return true;
        }
        i += 1;
    }
    false
}

/// Whether a word looks like a URL (`X*//X*.X+`), an email address
/// (`X*@X+.X+`) or a `www.X+.X+` name.
pub fn is_nonword(word: &[char]) -> (r: bool)
    ensures
        r == spec_is_nonword(word@),
{
    let n = word.len();
    if n < 4 {
        return false;
    }
    let mut slash_case = false;
    match find_first(word, '/', n - 3) {
        Some(p) => {
            if word[p + 1] == '/' && contains_char_between(word, '.', p + 2, n - 1) {
                slash_case = true;
            }
            proof {
                assert forall|q: int| #[trigger] is_first_index(word@, '/', q, n - 3) implies q
                    == p by {
                    if q < p {
                        assert(word@[q] == '/');
                    }
                    if p < q {
                        assert(word@[p as int] == '/');
                    }
                }
            }
        },
        None => {},
    }
    if slash_case {
        return true;
    }
    let mut at_case = false;
    match find_first(word, '@', n) {
        Some(p) => {
            if p < n - 2 && contains_char_between(word, '.', p + 2, n - 1) {
                at_case = true;
            }
            proof {
                assert forall|q: int| #[trigger] is_first_index(word@, '@', q, n as int) implies q
                    == p by {
                    if q < p {
                        assert(word@[q] == '@');
                    }
                    if p < q {
                        assert(word@[p as int] == '@');
                    }
                }
            }
        },
        None => {},
    }
    if at_case {
        return true;
    }
    if n >= 5 && simple_lower(word[0]) == 'w' && simple_lower(word[1]) == 'w' && simple_lower(
        word[2],
    ) == 'w' && word[3] == '.' && contains_char_between(word, '.', 5, n - 1) {
        return true;
    }
    false
}

/// The word with the missing hyphens added: a trailing one when it starts
/// with a hyphen; otherwise a leading one, and a trailing one unless it
/// already ends with a hyphen.
pub open spec fn spec_with_missing_hyphens(w: Seq<char>) -> Seq<char> {
    if w[0] == '-' {
        w.push('-')
    } else if w[w.len() - 1] == '-' {
        seq!['-'] + w
    } else {
        (seq!['-'] + w).push('-')
    }
}

/// Builds the word with its missing hyphens added.
pub fn with_missing_hyphens(word: &[char], len: usize) -> (r: Vec<char>)
    requires
        1 <= len <= word@.len(),
    ensures
        r@ == spec_with_missing_hyphens(word@.take(len as int)),
{
    let ghost w = word@.take(len as int);
    let mut buffer: Vec<char> = Vec::new();
    if word[0] != '-' {
        buffer.push('-');
    }
    let ghost start = buffer@;
    let mut i: usize = 0;
    while i < len
        invariant
            1 <= len <= word@.len(),
            w == word@.take(len as int),
            i <= len,
            buffer@ == start + w.take(i as int),
        decreases len - i,
    {
        buffer.push(word[i]);
        i += 1;
        proof {
            assert(buffer@ =~= start + w.take(i as int));
        }
    }
    assert(w.take(len as int) =~= w);
    if word[0] == '-' || word[len - 1] != '-' {
        buffer.push('-');
    }
    proof {
        assert(w[0] == word@[0]);
        assert(w[len - 1] == word@[len - 1]);
        if word@[0] == '-' {
            assert(buffer@ =~= spec_with_missing_hyphens(w));
        } else if word@[len - 1] == '-' {
            assert(buffer@ =~= spec_with_missing_hyphens(w));
        } else {
            assert(buffer@ =~= spec_with_missing_hyphens(w));
        }
    }
    buffer
}

/// The result of a hyphen-aware check, given what the speller said of the
/// word (`first`) and of the word with its missing hyphens added (`second`).
pub open spec fn hyphen_decision(
    w: Seq<char>,
    len: int,
    accept_missing_hyphens: bool,
    first: SpellResult,
    second: SpellResult,
) -> SpellResult {
    if first != SpellResult::Failed || !accept_missing_hyphens {
        first
    } else if len < 2 || (w[0] == '-' && w[len - 1] == '-') {
        SpellResult::Failed
    } else {
        second
    }
}

/// Whether a hyphen-aware check asks the speller a second time, about the
/// word with its missing hyphens added.
pub open spec fn asks_with_hyphens(w: Seq<char>, len: int, accept_missing_hyphens: bool, first: SpellResult) -> bool {
    first == SpellResult::Failed && accept_missing_hyphens && !(len < 2 || (w[0] == '-' && w[len - 1] == '-'))
}

/// `r` is a result that a hyphen-aware check of the word `w` may give with
/// `speller`: it follows from the speller's answer
/// about those characters and, where it is asked, its answer about them
/// with the missing hyphens added.
pub open spec fn hyphen_aware_answer<S: Speller>(
    speller: &S,
    w: Seq<char>,
    accept_missing_hyphens: bool,
    r: SpellResult,
) -> bool {
    exists|first: SpellResult, second: SpellResult|
        #[trigger] hyphen_decision(w, w.len() as int, accept_missing_hyphens, first, second) == r
            && speller_answer(speller, w, first)
            && (asks_with_hyphens(w, w.len() as int, accept_missing_hyphens, first) ==> speller_answer(
                speller,
                spec_with_missing_hyphens(w),
                second,
            ))
}

/// Spell check that, when allowed, also tries the word with hyphens added
/// at its start and/or end.
pub fn hyphen_aware_spell<S: Speller>(
    speller: &S,
    word: &[char],
    len: usize,
    accept_missing_hyphens: bool,
) -> (r: SpellResult)
    requires
        len <= word@.len(),
    ensures
        hyphen_aware_answer(speller, word@.take(len as int), accept_missing_hyphens, r),
{
    let ghost w = word@.take(len as int);
    let spres = ask_speller(speller, word, len);
    if spres != SpellResult::Failed || !accept_missing_hyphens {
        assert(spres == hyphen_decision(w, len as int, accept_missing_hyphens, spres, spres));
        return spres;
    }
    if len < 2 || (word[0] == '-' && word[len - 1] == '-') {
        assert(len >= 2 ==> w[0] == word@[0] && w[len - 1] == word@[len - 1]);
        assert(SpellResult::Failed == hyphen_decision(w, len as int, accept_missing_hyphens, spres, spres));
        return SpellResult::Failed;
    }
    assert(w[0] == word@[0] && w[len - 1] == word@[len - 1]);
    let buffer = with_missing_hyphens(word, len);
    let second = ask_speller(speller, buffer.as_slice(), buffer.len());
    assert(buffer@.take(buffer.len() as int) =~= buffer@);
    assert(second == hyphen_decision(w, len as int, accept_missing_hyphens, spres, second));
    second
}

pub const CONV_2TO1: [(char, char, char); 67] = [
    // Basic Latin + Combining Diacritical Marks --> Latin-1 Supplement
    ('A', '\u{0300}', '\u{00C0}'), // LATIN CAPITAL LETTER A WITH GRAVE
    ('A', '\u{0301}', '\u{00C1}'), // LATIN CAPITAL LETTER A WITH ACUTE
    ('A', '\u{0302}', '\u{00C2}'), // LATIN CAPITAL LETTER A WITH CIRCUMFLEX
    ('A', '\u{0303}', '\u{00C3}'), // LATIN CAPITAL LETTER A WITH TILDE
    ('A', '\u{0308}', '\u{00C4}'), // LATIN CAPITAL LETTER A WITH DIAERESIS
    ('A', '\u{030A}', '\u{00C5}'), // LATIN CAPITAL LETTER A WITH RING ABOVE
    ('C', '\u{0327}', '\u{00C7}'), // LATIN CAPITAL LETTER C WITH CEDILLA
    ('E', '\u{0300}', '\u{00C8}'), // LATIN CAPITAL LETTER E WITH GRAVE
    ('E', '\u{0301}', '\u{00C9}'), // LATIN CAPITAL LETTER E WITH ACUTE
    ('E', '\u{0302}', '\u{00CA}'), // LATIN CAPITAL LETTER E WITH CIRCUMFLEX
    ('E', '\u{0308}', '\u{00CB}'), // LATIN CAPITAL LETTER E WITH DIAERESIS
    ('I', '\u{0300}', '\u{00CC}'), // LATIN CAPITAL LETTER I WITH GRAVE
    ('I', '\u{0301}', '\u{00CD}'), // LATIN CAPITAL LETTER I WITH ACUTE
    ('I', '\u{0302}', '\u{00CE}'), // LATIN CAPITAL LETTER I WITH CIRCUMFLEX
    ('I', '\u{0308}', '\u{00CF}'), // LATIN CAPITAL LETTER I WITH DIAERESIS
    ('N', '\u{0303}', '\u{00D1}'), // LATIN CAPITAL LETTER N WITH TILDE
    ('O', '\u{0300}', '\u{00D2}'), // LATIN CAPITAL LETTER O WITH GRAVE
    ('O', '\u{0301}', '\u{00D3}'), // LATIN CAPITAL LETTER O WITH ACUTE
    ('O', '\u{0302}', '\u{00D4}'), // LATIN CAPITAL LETTER O WITH CIRCUMFLEX
    ('O', '\u{0303}', '\u{00D5}'), // LATIN CAPITAL LETTER O WITH TILDE
    ('O', '\u{0308}', '\u{00D6}'), // LATIN CAPITAL LETTER O WITH DIAERESIS
    ('U', '\u{0300}', '\u{00D9}'), // LATIN CAPITAL LETTER U WITH GRAVE
    ('U', '\u{0301}', '\u{00DA}'), // LATIN CAPITAL LETTER U WITH ACUTE
    ('U', '\u{0302}', '\u{00DB}'), // LATIN CAPITAL LETTER U WITH CIRCUMFLEX
    ('U', '\u{0308}', '\u{00DC}'), // LATIN CAPITAL LETTER U WITH DIAERESIS
    ('Y', '\u{0301}', '\u{00DD}'), // LATIN CAPITAL LETTER Y WITH ACUTE
    ('a', '\u{0300}', '\u{00E0}'), // LATIN SMALL LETTER A WITH GRAVE
    ('a', '\u{0301}', '\u{00E1}'), // LATIN SMALL LETTER A WITH ACUTE
    ('a', '\u{0302}', '\u{00E2}'), // LATIN SMALL LETTER A WITH CIRCUMFLEX
    ('a', '\u{0303}', '\u{00E3}'), // LATIN SMALL LETTER A WITH TILDE
    ('a', '\u{0308}', '\u{00E4}'), // LATIN SMALL LETTER A WITH DIAERESIS
    ('a', '\u{030A}', '\u{00E5}'), // LATIN SMALL LETTER A WITH RING ABOVE
    ('c', '\u{0327}', '\u{00E7}'), // LATIN SMALL LETTER C WITH CEDILLA
    ('e', '\u{0300}', '\u{00E8}'), // LATIN SMALL LETTER E WITH GRAVE
    ('e', '\u{0301}', '\u{00E9}'), // LATIN SMALL LETTER E WITH ACUTE
    ('e', '\u{0302}', '\u{00EA}'), // LATIN SMALL LETTER E WITH CIRCUMFLEX
    ('e', '\u{0308}', '\u{00EB}'), // LATIN SMALL LETTER E WITH DIAERESIS
    ('i', '\u{0300}', '\u{00EC}'), // LATIN SMALL LETTER I WITH GRAVE
    ('i', '\u{0301}', '\u{00ED}'), // LATIN SMALL LETTER I WITH ACUTE
    ('i', '\u{0302}', '\u{00EE}'), // LATIN SMALL LETTER I WITH CIRCUMFLEX
    ('i', '\u{0308}', '\u{00EF}'), // LATIN SMALL LETTER I WITH DIAERESIS
    ('n', '\u{0303}', '\u{00F1}'), // LATIN SMALL LETTER N WITH TILDE
    ('o', '\u{0300}', '\u{00F2}'), // LATIN SMALL LETTER O WITH GRAVE
    ('o', '\u{0301}', '\u{00F3}'), // LATIN SMALL LETTER O WITH ACUTE
    ('o', '\u{0302}', '\u{00F4}'), // LATIN SMALL LETTER O WITH CIRCUMFLEX
    ('o', '\u{0303}', '\u{00F5}'), // LATIN SMALL LETTER O WITH TILDE
    ('o', '\u{0308}', '\u{00F6}'), // LATIN SMALL LETTER O WITH DIAERESIS
    ('u', '\u{0300}', '\u{00F9}'), // LATIN SMALL LETTER U WITH GRAVE
    ('u', '\u{0301}', '\u{00FA}'), // LATIN SMALL LETTER U WITH ACUTE
    ('u', '\u{0302}', '\u{00FB}'), // LATIN SMALL LETTER U WITH CIRCUMFLEX
    ('u', '\u{0308}', '\u{00FC}'), // LATIN SMALL LETTER U WITH DIAERESIS
    ('y', '\u{0301}', '\u{00FD}'), // LATIN SMALL LETTER Y WITH ACUTE
    ('y', '\u{0308}', '\u{00FF}'), // LATIN SMALL LETTER Y WITH DIAERESIS
    // Basic Latin + Combining Diacritical Marks --> Latin Extended-A
    ('S', '\u{030C}', '\u{0160}'), // LATIN CAPITAL LETTER S WITH CARON
    ('s', '\u{030C}', '\u{0161}'), // LATIN SMALL LETTER S WITH CARON
    ('Z', '\u{030C}', '\u{017D}'), // LATIN CAPITAL LETTER Z WITH CARON
    ('z', '\u{030C}', '\u{017E}'), // LATIN SMALL LETTER Z WITH CARON
    // Basic Russian alphabet + Combining Diacritical Marks --> Basic Russian alphabet
    ('\u{0418}', '\u{0306}', '\u{0419}'), // CYRILLIC CAPITAL LETTER SHORT I
    ('\u{0438}', '\u{0306}', '\u{0439}'), // CYRILLIC SMALL LETTER SHORT I
    // Basic Russian alphabet + Combining Diacritical Marks --> Cyrillic extensions
    ('\u{0415}', '\u{0300}', '\u{0400}'), // CYRILLIC CAPITAL LETTER IE WITH GRAVE
    ('\u{0435}', '\u{0300}', '\u{0450}'), // CYRILLIC SMALL LETTER IE WITH GRAVE
    ('\u{0415}', '\u{0308}', '\u{0401}'), // CYRILLIC CAPITAL LETTER IO
    ('\u{0435}', '\u{0308}', '\u{0451}'), // CYRILLIC SMALL LETTER IO
    ('\u{0413}', '\u{0301}', '\u{0403}'), // CYRILLIC CAPITAL LETTER GJE
    ('\u{0433}', '\u{0301}', '\u{0453}'), // CYRILLIC SMALL LETTER GJE
    // Basic Russian alphabet + Combining Diacritical Marks --> Extended Cyrillic
    ('\u{041E}', '\u{0308}', '\u{04E6}'), // CYRILLIC CAPITAL LETTER O WITH DIAERESIS
    ('\u{043E}', '\u{0308}', '\u{04E7}'), // CYRILLIC SMALL LETTER O WITH DIAERESIS
];

/// First table entry composing `base` followed by `mark`, from index `i`.
pub open spec fn compose_from(base: char, mark: char, i: int) -> Option<char>
    decreases 67 - i,
{
    if i < 0 || i >= 67 {
        None
    } else if CONV_2TO1@[i].0 == base && CONV_2TO1@[i].1 == mark {
        Some(CONV_2TO1@[i].2)
    } else {
        compose_from(base, mark, i + 1)
    }
}

/// The precomposed character for a base character and a combining mark.
pub open spec fn spec_compose(base: char, mark: char) -> Option<char> {
    compose_from(base, mark, 0)
}

/// Looks up the precomposed character for `base` followed by `mark`.
pub fn compose(base: char, mark: char) -> (r: Option<char>)
    ensures
        r == spec_compose(base, mark),
{
    let mut i: usize = 0;
    while i < 67
        invariant
            i <= 67,
            spec_compose(base, mark) == compose_from(base, mark, i as int),
        decreases 67 - i,
    {
        let e = CONV_2TO1[i];
        if e.0 == base && e.1 == mark {
            return Some(e.2);
        }
        i += 1;
    }
    None
}

/// The replacement of a single character: hyphen and apostrophe variants
/// become ASCII, degree signs and ligatures are spelled out, everything
/// else stays.
pub open spec fn expansion(c: char) -> Seq<char> {
    if c == '\u{2019}' {
        seq!['\'']
    } else if c == '\u{2010}' || c == '\u{2011}' {
        seq!['-']
    } else if c == '\u{2103}' {
        seq!['\u{00B0}', 'C']
    } else if c == '\u{2109}' {
        seq!['\u{00B0}', 'F']
    } else if c == '\u{FB00}' {
        seq!['f', 'f']
    } else if c == '\u{FB01}' {
        seq!['f', 'i']
    } else if c == '\u{FB02}' {
        seq!['f', 'l']
    } else if c == '\u{FB03}' {
        seq!['f', 'f', 'i']
    } else if c == '\u{FB04}' {
        seq!['f', 'f', 'l']
    } else {
        seq![c]
    }
}

/// Normalization of `w` from position `i` on: a base character followed by
/// a combining mark becomes the precomposed character, other characters
/// are replaced by their expansion.
pub open spec fn normalize_from(w: Seq<char>, i: int) -> Seq<char>
    decreases w.len() - i,
{
    if i < 0 || i >= w.len() {
        Seq::empty()
    } else if i + 1 < w.len() && spec_compose(w[i], w[i + 1]) is Some {
        seq![spec_compose(w[i], w[i + 1]).unwrap()] + normalize_from(w, i + 2)
    } else {
        expansion(w[i]) + normalize_from(w, i + 1)
    }
}

pub open spec fn spec_normalize(w: Seq<char>) -> Seq<char> {
    normalize_from(w, 0)
}

proof fn lemma_normalize_from_len(w: Seq<char>, i: int)
    requires
        0 <= i < w.len(),
    ensures
        normalize_from(w, i).len() >= 1,
    decreases w.len() - i,
{
    if i + 1 < w.len() {
        lemma_normalize_from_len(w, i + 1);
    }
    if i + 2 < w.len() {
        lemma_normalize_from_len(w, i + 2);
    }
}

/// Whether normalization leaves `w` as it is: no character has an
/// expansion of its own and no two neighbours compose.
pub open spec fn normal_already(w: Seq<char>) -> bool {
    &&& forall|i: int| 0 <= i < w.len() ==> #[trigger] expansion(w[i]) == seq![w[i]]
    &&& forall|i: int| 0 <= i < w.len() - 1 ==> #[trigger] spec_compose(w[i], w[i + 1]) is None
}

proof fn lemma_expansion_len(c: char)
    ensures
        1 <= expansion(c).len() <= 3,
{
}

/// Normalization from `i` on gives at most three characters for each one.
proof fn lemma_normalize_from_bound(w: Seq<char>, i: int)
    requires
        0 <= i <= w.len(),
    ensures
        normalize_from(w, i).len() <= 3 * (w.len() - i),
    decreases w.len() - i,
{
    if i < w.len() {
        lemma_expansion_len(w[i]);
        if i + 1 < w.len() && spec_compose(w[i], w[i + 1]) is Some {
            lemma_normalize_from_bound(w, i + 2);
        } else {
            lemma_normalize_from_bound(w, i + 1);
        }
    }
}

/// A word that is normal already is left as it is.
proof fn lemma_normalize_from_identity(w: Seq<char>, i: int)
    requires
        0 <= i <= w.len(),
        normal_already(w),
    ensures
        normalize_from(w, i) == w.skip(i),
    decreases w.len() - i,
{
    if i < w.len() {
        lemma_normalize_from_identity(w, i + 1);
        if i + 1 < w.len() {
            assert(spec_compose(w[i], w[i + 1]) is None);
        }
        assert(expansion(w[i]) == seq![w[i]]);
        assert(seq![w[i]] + w.skip(i + 1) =~= w.skip(i));
    } else {
        assert(w.skip(i) =~= Seq::<char>::empty());
    }
}

/// Unicode normalization of a word (see `normalize_from`): at most three
/// characters for each one, and a word that is normal already stays as it
/// is.
pub fn normalize(word: &[char]) -> (r: Vec<char>)
    ensures
        r@ == spec_normalize(word@),
        word@.len() > 0 ==> r@.len() >= 1,
        r@.len() <= 3 * word@.len(),
        normal_already(word@) ==> r@ == word@,
{
    proof {
        lemma_normalize_from_bound(word@, 0);
        if normal_already(word@) {
            lemma_normalize_from_identity(word@, 0);
            assert(word@.skip(0) =~= word@);
        }
    }
    let len = word.len();
    let mut result: Vec<char> = Vec::new();
    let mut i: usize = 0;
    while i < len
        invariant
            len == word@.len(),
            i <= len + 1,
            result@ + normalize_from(word@, i as int) == spec_normalize(word@),
        decreases len + 1 - i,
    {
        let ghost before = result@;
        if i + 1 < len {
            match compose(word[i], word[i + 1]) {
                Some(c) => {
                    result.push(c);
                    proof {
                        assert(result@ + normalize_from(word@, i + 2) =~= before
                            + normalize_from(word@, i as int));
                    }
                    i += 2;
                    continue;
                },
                None => {},
            }
        }
        let c = word[i];
        if c == '\u{2019}' {
            result.push('\'');
        } else if c == '\u{2010}' || c == '\u{2011}' {
            result.push('-');
        } else if c == '\u{2103}' {
            result.push('\u{00B0}');
            result.push('C');
        } else if c == '\u{2109}' {
            result.push('\u{00B0}');
            result.push('F');
        } else if c == '\u{FB00}' {
            result.push('f');
            result.push('f');
        } else if c == '\u{FB01}' {
            result.push('f');
            result.push('i');
        } else if c == '\u{FB02}' {
            result.push('f');
            result.push('l');
        } else if c == '\u{FB03}' {
            result.push('f');
            result.push('f');
            result.push('i');
        } else if c == '\u{FB04}' {
            result.push('f');
            result.push('f');
            result.push('l');
        } else {
            result.push(c);
        }
        proof {
            assert(result@ =~= before + expansion(c));
            assert(result@ + normalize_from(word@, i + 1) =~= before + normalize_from(
                word@,
                i as int,
            ));
        }
        i += 1;
    }
    proof {
        assert(result@ =~= spec_normalize(word@));
        if len > 0 {
            lemma_normalize_from_len(word@, 0);
        }
    }
    result
}

/// Whether a character is an ASCII digit.
pub fn is_digit(c: char) -> (r: bool)
    ensures
        r == spec_is_ascii_digit(c),
{
    '0' <= c && c <= '9'
}

pub open spec fn has_digit(w: Seq<char>) -> bool {
    exists|i: int| 0 <= i < w.len() && spec_is_ascii_digit(#[trigger] w[i])
}

fn contains_digit(word: &[char]) -> (r: bool)
    ensures
        r == has_digit(word@),
{
    let mut i: usize = 0;
    while i < word.len()
        invariant
            i <= word.len(),
            forall|k: int| 0 <= k < i ==> !spec_is_ascii_digit(#[trigger] word@[k]),
        decreases word.len() - i,
    {
        if is_digit(word[i]) {
            return true;
        }
        i += 1;
    }
    false
}

/// Maps a speller result and the word's case pattern to the public answer.
pub open spec fn spec_map_spell_result(sres: SpellResult, caps: CaseType, options: SpellOptions) -> i32 {
    match caps {
        CaseType::AllLower => if sres == SpellResult::Correct {
            1
        } else {
            0
        },
        CaseType::FirstUpper => if (sres == SpellResult::Correct && options.accept_first_uppercase)
            || sres == SpellResult::CapitalizeFirst {
            1
        } else {
            0
        },
        CaseType::AllUpper => if sres == SpellResult::Failed {
            0
        } else {
            1
        },
        _ => 0,
    }
}

/// Map an internal result and a case pattern to the public answer.
pub fn map_spell_result(sres: SpellResult, caps: CaseType, options: &SpellOptions) -> (r: i32)
    ensures
        r == spec_map_spell_result(sres, caps, *options),
{
    match caps {
        CaseType::AllLower => {
            if sres == SpellResult::Correct {
                VOIKKO_SPELL_OK
            } else {
                VOIKKO_SPELL_FAILED
            }
        },
        CaseType::FirstUpper => {
            if (sres == SpellResult::Correct && options.accept_first_uppercase) || sres
                == SpellResult::CapitalizeFirst {
                VOIKKO_SPELL_OK
            } else {
                VOIKKO_SPELL_FAILED
            }
        },
        CaseType::AllUpper => {
            if sres == SpellResult::Failed {
                VOIKKO_SPELL_FAILED
            } else {
                VOIKKO_SPELL_OK
            }
        },
        _ => VOIKKO_SPELL_FAILED,
    }
}

/// In the exact-case path: the speller accepts the word as written, or
/// wants only its first letter capitalized while it is.
pub open spec fn exact_case_accepts(sres: SpellResult, options: SpellOptions, nw: Seq<char>) -> bool {
    sres == SpellResult::Correct || (sres == SpellResult::CapitalizeFirst
        && options.accept_first_uppercase && spec_is_upper(nw[0]))
}

/// The public answer for a word, given what the hyphen-aware speller said
/// of the first query (`s1`) and, where the word ends in a dot that may be
/// ignored, of the second query (`s2`).
pub open spec fn spell_decision(
    w: Seq<char>,
    options: SpellOptions,
    s1: SpellResult,
    s2: SpellResult,
) -> i32 {
    if w.len() == 0 {
        1
    } else if w.len() > MAX_WORD_CHARS {
        0
    } else {
        let nw = spec_normalize(w);
        let caps0 = spec_detect_case(nw);
        if options.ignore_numbers && has_digit(nw) {
            1
        } else if options.ignore_uppercase && caps0 == CaseType::AllUpper {
            1
        } else if options.ignore_nonwords && spec_is_nonword(nw) {
            1
        } else {
            let caps = if caps0 == CaseType::AllUpper && !options.accept_all_uppercase {
                CaseType::Complex
            } else {
                caps0
            };
            let has_dot = options.ignore_dot && lowercase_of(nw.last()) == '.';
            if caps == CaseType::Complex || caps == CaseType::NoLetters {
                if exact_case_accepts(s1, options, nw) {
                    1
                } else if has_dot && exact_case_accepts(s2, options, nw) {
                    1
                } else {
                    0
                }
            } else {
                let r1 = spec_map_spell_result(s1, caps, options);
                if r1 == 1 {
                    1
                } else if has_dot {
                    spec_map_spell_result(s2, caps, options)
                } else {
                    r1
                }
            }
        }
    }
}

/// Whether checking `w` reaches the speller: the word is neither empty nor
/// too long, and no option lets it pass unchecked.
pub open spec fn spell_asks_speller(w: Seq<char>, options: SpellOptions) -> bool {
    let nw = spec_normalize(w);
    &&& 0 < w.len() <= MAX_WORD_CHARS
    &&& !(options.ignore_numbers && has_digit(nw))
    &&& !(options.ignore_uppercase && spec_detect_case(nw) == CaseType::AllUpper)
    &&& !(options.ignore_nonwords && spec_is_nonword(nw))
}

/// The case pattern by which the speller's answer is judged: all uppercase
/// counts as complex where it is not accepted.
pub open spec fn effective_case(w: Seq<char>, options: SpellOptions) -> CaseType {
    let caps0 = spec_detect_case(spec_normalize(w));
    if caps0 == CaseType::AllUpper && !options.accept_all_uppercase {
        CaseType::Complex
    } else {
        caps0
    }
}

/// Whether the word is checked as written, with only its first letter
/// lowercased.
pub open spec fn checked_as_written(w: Seq<char>, options: SpellOptions) -> bool {
    effective_case(w, options) == CaseType::Complex || effective_case(w, options) == CaseType::NoLetters
}

/// Whether a trailing dot of the normalized word may be left out.
pub open spec fn trailing_dot_ignored(w: Seq<char>, options: SpellOptions) -> bool {
    options.ignore_dot && lowercase_of(spec_normalize(w).last()) == '.'
}

/// The lowercased normalized word.
pub open spec fn lowered_normal(w: Seq<char>) -> Seq<char> {
    let nw = spec_normalize(w);
    Seq::new(nw.len(), |i: int| lowercase_of(nw[i]))
}

/// The normalized word with its first letter lowercased.
pub open spec fn first_lowered_normal(w: Seq<char>) -> Seq<char> {
    let nw = spec_normalize(w);
    nw.update(0, lowercase_of(nw[0]))
}

/// What the speller is asked about first.
pub open spec fn first_spell_query(w: Seq<char>, options: SpellOptions) -> Seq<char> {
    if checked_as_written(w, options) {
        first_lowered_normal(w)
    } else if trailing_dot_ignored(w, options) {
        lowered_normal(w).drop_last()
    } else {
        lowered_normal(w)
    }
}

/// What the speller is asked about next, when a trailing dot may be left
/// out and the first answer did not settle it.
pub open spec fn second_spell_query(w: Seq<char>, options: SpellOptions) -> Seq<char> {
    if checked_as_written(w, options) {
        first_lowered_normal(w).drop_last()
    } else {
        lowered_normal(w)
    }
}

/// Whether the first answer leaves the word to the second query.
pub open spec fn spell_asks_again(w: Seq<char>, options: SpellOptions, s1: SpellResult) -> bool {
    &&& trailing_dot_ignored(w, options)
    &&& if checked_as_written(w, options) {
        !exact_case_accepts(s1, options, spec_normalize(w))
    } else {
        spec_map_spell_result(s1, effective_case(w, options), options) != 1
    }
}

/// `s1` and `s2` are results that hyphen-aware checks of the queries that
/// checking `w` makes may give with `speller`.
pub open spec fn spell_answers<S: Speller>(
    speller: &S,
    w: Seq<char>,
    options: SpellOptions,
    s1: SpellResult,
    s2: SpellResult,
) -> bool {
    let q1 = first_spell_query(w, options);
    let q2 = second_spell_query(w, options);
    &&& spell_asks_speller(w, options) ==> hyphen_aware_answer(
        speller,
        q1,
        options.accept_missing_hyphens,
        s1,
    )
    &&& spell_asks_speller(w, options) && spell_asks_again(w, options, s1) ==> hyphen_aware_answer(
        speller,
        q2,
        options.accept_missing_hyphens,
        s2,
    )
}

/// Lowercase every character.
fn lowercase_all(word: &[char]) -> (r: Vec<char>)
    ensures
        r@ == Seq::new(word@.len(), |i: int| lowercase_of(word@[i])),
{
    let mut r: Vec<char> = Vec::new();
    let mut i: usize = 0;
    while i < word.len()
        invariant
            i <= word.len(),
            r@ == Seq::new(i as nat, |k: int| lowercase_of(word@[k])),
        decreases word.len() - i,
    {
        r.push(simple_lower(word[i]));
        i += 1;
        proof {
            assert(r@ =~= Seq::new(i as nat, |k: int| lowercase_of(word@[k])));
        }
    }
    r
}

/// Top-level spell check; returns `VOIKKO_SPELL_OK` or `VOIKKO_SPELL_FAILED`.
///
/// The word is normalized; it is accepted outright when the options say to
/// ignore it (digits, all uppercase, non-words). Otherwise the lowercased
/// word (or, for complex case patterns, the word as written with its first
/// letter lowercased) is checked with the speller, and the result mapped
/// through the case pattern; a trailing dot may be ignored.
pub fn spell_check<S: Speller>(word: &[char], speller: &S, options: &SpellOptions) -> (r: i32)
    ensures
        exists|s1: SpellResult, s2: SpellResult|
            #[trigger] spell_decision(word@, *options, s1, s2) == r && spell_answers(
                speller,
                word@,
                *options,
                s1,
                s2,
            ),
        r == VOIKKO_SPELL_OK || r == VOIKKO_SPELL_FAILED,
{
    let nchars = word.len();
    if nchars == 0 {
        assert(spell_decision(word@, *options, SpellResult::Failed, SpellResult::Failed) == 1);
        return VOIKKO_SPELL_OK;
    }
    if nchars > MAX_WORD_CHARS {
        assert(spell_decision(word@, *options, SpellResult::Failed, SpellResult::Failed) == 0);
        return VOIKKO_SPELL_FAILED;
    }
    let nword = normalize(word);
    let nchars = nword.len();
    let ghost nw = nword@;
    if options.ignore_numbers && contains_digit(&nword) {
        assert(spell_decision(word@, *options, SpellResult::Failed, SpellResult::Failed) == 1);
        return VOIKKO_SPELL_OK;
    }
    let mut caps = detect_case(&nword);
    if options.ignore_uppercase && caps == CaseType::AllUpper {
        assert(spell_decision(word@, *options, SpellResult::Failed, SpellResult::Failed) == 1);
        return VOIKKO_SPELL_OK;
    }
    if options.ignore_nonwords && is_nonword(&nword) {
        assert(spell_decision(word@, *options, SpellResult::Failed, SpellResult::Failed) == 1);
        return VOIKKO_SPELL_OK;
    }
    if caps == CaseType::AllUpper && !options.accept_all_uppercase {
        caps = CaseType::Complex;
    }
    let mut buffer = lowercase_all(&nword);
    let ghost lower = buffer@;
    assert(lower =~= lowered_normal(word@));
    let has_dot = options.ignore_dot && buffer[nchars - 1] == '.';
    let real_chars = if has_dot {
        buffer.set(nchars - 1, '\0');
        nchars - 1
    } else {
        nchars
    };
    assert(has_dot == trailing_dot_ignored(word@, *options));
    assert(caps == effective_case(word@, *options));
    assert(spell_asks_speller(word@, *options));
    if caps == CaseType::Complex || caps == CaseType::NoLetters {
        let mut exact = nword.clone();
        let first = simple_lower(exact[0]);
        exact.set(0, first);
        assert(exact@ =~= first_lowered_normal(word@));
        assert(exact@.take(nchars as int) =~= exact@);
        let sres = hyphen_aware_spell(speller, &exact, nchars, options.accept_missing_hyphens);
        let upper0 = is_upper(nword[0]);
        let accepted1 = sres == SpellResult::Correct || (sres == SpellResult::CapitalizeFirst
            && options.accept_first_uppercase && upper0);
        assert(accepted1 == exact_case_accepts(sres, *options, nw));
        if accepted1 {
            assert(spell_answers(speller, word@, *options, sres, sres));
            assert(spell_decision(word@, *options, sres, sres) == 1);
            return VOIKKO_SPELL_OK;
        }
        if has_dot {
            let prefix = slice_subrange(exact.as_slice(), 0, real_chars);
            assert(prefix@ =~= first_lowered_normal(word@).drop_last());
            assert(prefix@.take(real_chars as int) =~= prefix@);
            let sres2 = hyphen_aware_spell(speller, prefix, real_chars, options.accept_missing_hyphens);
            assert(spell_answers(speller, word@, *options, sres, sres2));
            if sres2 == SpellResult::Correct || (sres2 == SpellResult::CapitalizeFirst
                && options.accept_first_uppercase && upper0) {
                assert(spell_decision(word@, *options, sres, sres2) == 1);
                return VOIKKO_SPELL_OK;
            }
            assert(spell_decision(word@, *options, sres, sres2) == 0);
            return VOIKKO_SPELL_FAILED;
        }
        assert(spell_answers(speller, word@, *options, sres, sres));
        assert(spell_decision(word@, *options, sres, sres) == 0);
        return VOIKKO_SPELL_FAILED;
    }
    let query = slice_subrange(buffer.as_slice(), 0, real_chars);
    if has_dot {
        assert(query@ =~= lowered_normal(word@).drop_last());
    } else {
        assert(query@ =~= lowered_normal(word@));
    }
    assert(query@.take(real_chars as int) =~= query@);
    let sres = hyphen_aware_spell(speller, query, real_chars, options.accept_missing_hyphens);
    let result = map_spell_result(sres, caps, options);
    if result == VOIKKO_SPELL_OK {
        assert(spell_answers(speller, word@, *options, sres, sres));
        assert(spell_decision(word@, *options, sres, sres) == 1);
        return VOIKKO_SPELL_OK;
    }
    if has_dot {
        buffer.set(nchars - 1, '.');
        assert(buffer@ =~= lowered_normal(word@));
        assert(buffer@.take(nchars as int) =~= buffer@);
        let sres2 = hyphen_aware_spell(speller, buffer.as_slice(), nchars, options.accept_missing_hyphens);
        assert(spell_answers(speller, word@, *options, sres, sres2));
        let result2 = map_spell_result(sres2, caps, options);
        assert(spell_decision(word@, *options, sres, sres2) == result2);
        return result2;
    }
    assert(spell_answers(speller, word@, *options, sres, sres));
    assert(spell_decision(word@, *options, sres, sres) == result);
    result
}


/// No table entry composes with a mark below U+0300: every combining mark
/// in the table lies above it.
proof fn lemma_no_compose_below_marks(base: char, mark: char, i: int)
    requires
        (mark as u32) < 0x300,
        0 <= i <= 67,
    ensures
        compose_from(base, mark, i) is None,
    decreases 67 - i,
{
    if i < 67 {
        assert((CONV_2TO1@[i].1 as u32) >= 0x300) by {
            reveal_with_fuel(compose_from, 1);
        }
        lemma_no_compose_below_marks(base, mark, i + 1);
    }
}


/// The uppercase form of an ASCII lowercase letter.
pub open spec fn ascii_upper(c: char) -> char {
    (c as int - 32) as char
}

/// Whether every character of `w` is an ASCII letter in `lo..=hi`.
pub open spec fn all_in(w: Seq<char>, lo: char, hi: char) -> bool {
    forall|i: int| 0 <= i < w.len() ==> lo <= #[trigger] w[i] <= hi
}

proof fn lemma_letters_normal(x: Seq<char>)
    requires
        forall|i: int| 0 <= i < x.len() ==> ('a' <= #[trigger] x[i] <= 'z' || 'A' <= x[i] <= 'Z'),
    ensures
        spec_normalize(x) == x,
        !has_digit(x),
        !spec_is_nonword(x),
        x.len() > 0 ==> lowercase_of(x.last()) != '.' || !(exists|i: int| 0 <= i < x.len() && x[i] == '.'),
{
    assert forall|i: int| 0 <= i < x.len() implies #[trigger] expansion(x[i]) == seq![x[i]] by {
        assert('a' <= x[i] <= 'z' || 'A' <= x[i] <= 'Z');
    }
    assert forall|i: int| 0 <= i < x.len() - 1 implies #[trigger] spec_compose(x[i], x[i + 1]) is None by {
        assert('a' <= x[i + 1] <= 'z' || 'A' <= x[i + 1] <= 'Z');
        lemma_no_compose_below_marks(x[i], x[i + 1], 0);
    }
    lemma_normalize_from_identity(x, 0);
    assert(x.skip(0) =~= x);
    assert forall|i: int| 0 <= i < x.len() implies !spec_is_ascii_digit(#[trigger] x[i]) by {
        assert('a' <= x[i] <= 'z' || 'A' <= x[i] <= 'Z');
    }
    if spec_is_nonword(x) {
        if exists|p: int| #[trigger] is_first_index(x, '/', p, x.len() - 3) {
            let p = choose|p: int| #[trigger] is_first_index(x, '/', p, x.len() - 3);
            assert('a' <= x[p] <= 'z' || 'A' <= x[p] <= 'Z');
        } else if exists|p: int| #[trigger] is_first_index(x, '@', p, x.len() as int) {
            let p = choose|p: int| #[trigger] is_first_index(x, '@', p, x.len() as int);
            assert('a' <= x[p] <= 'z' || 'A' <= x[p] <= 'Z');
        } else {
            assert('a' <= x[3] <= 'z' || 'A' <= x[3] <= 'Z');
        }
    }
}

/// Capitalization never makes a correct word wrong: when the speller's
/// answers make an ASCII lowercase word correct in `spell_check`
/// (`spell_decision`), the same answers make the word written all in
/// uppercase, or with a capital first letter, correct too, as long as
/// those forms are accepted. All three forms are lowercased to the same
/// word before the speller is asked, so a speller that answers alike for
/// alike words gives them the same answers.
pub proof fn lemma_case_monotone(w: Seq<char>, options: SpellOptions, s1: SpellResult, s2: SpellResult)
    requires
        0 < w.len() <= MAX_WORD_CHARS,
        all_in(w, 'a', 'z'),
        options.accept_first_uppercase,
        options.accept_all_uppercase,
        spell_decision(w, options, s1, s2) == 1,
    ensures
        spell_decision(Seq::new(w.len(), |i: int| ascii_upper(w[i])), options, s1, s2) == 1,
        spell_decision(w.update(0, ascii_upper(w[0])), options, s1, s2) == 1,
{
    let u = Seq::new(w.len(), |i: int| ascii_upper(w[i]));
    let c = w.update(0, ascii_upper(w[0]));
    assert forall|i: int| 0 <= i < w.len() implies ('a' <= #[trigger] w[i] <= 'z' || 'A' <= w[i] <= 'Z') by {}
    assert forall|i: int| 0 <= i < u.len() implies ('a' <= #[trigger] u[i] <= 'z' || 'A' <= u[i] <= 'Z') by {
        assert('a' <= w[i] <= 'z');
    }
    assert forall|i: int| 0 <= i < c.len() implies ('a' <= #[trigger] c[i] <= 'z' || 'A' <= c[i] <= 'Z') by {
        assert('a' <= w[i] <= 'z');
    }
    lemma_letters_normal(w);
    lemma_letters_normal(u);
    lemma_letters_normal(c);
    // The lowercase word.
    assert forall|i: int| 0 <= i < w.len() implies !spec_is_upper(#[trigger] w[i]) && spec_is_lower(w[i]) by {
        assert('a' <= w[i] <= 'z');
        assert(lowercase_of(w[i]) == w[i]);
    }
    assert(has_lower(w)) by {
        assert(spec_is_lower(w[0]));
    }
    assert(!has_upper_from(w, 0));
    assert(spec_detect_case(w) == CaseType::AllLower);
    assert(lowercase_of(w.last()) != '.') by {
        assert('a' <= w[w.len() - 1] <= 'z');
    }
    assert(s1 == SpellResult::Correct);
    // All in uppercase.
    assert forall|i: int| 0 <= i < u.len() implies spec_is_upper(#[trigger] u[i]) && !spec_is_lower(u[i]) by {
        assert('a' <= w[i] <= 'z');
        assert(lowercase_of(ascii_upper(w[i])) == w[i]);
        assert(uppercase_of(ascii_upper(w[i])) == ascii_upper(w[i]));
    }
    assert(has_upper_from(u, 0)) by {
        assert(spec_is_upper(u[0]));
    }
    assert(!has_lower(u));
    assert(spec_detect_case(u) == CaseType::AllUpper);
    // A capital first letter.
    assert(spec_is_upper(c[0]) && !spec_is_lower(c[0])) by {
        assert('a' <= w[0] <= 'z');
        assert(lowercase_of(ascii_upper(w[0])) == w[0]);
        assert(uppercase_of(ascii_upper(w[0])) == ascii_upper(w[0]));
    }
    assert forall|i: int| 1 <= i < c.len() implies !spec_is_upper(#[trigger] c[i]) && spec_is_lower(c[i]) by {
        assert(c[i] == w[i]);
        assert('a' <= w[i] <= 'z');
        assert(lowercase_of(w[i]) == w[i]);
    }
    assert(!has_upper_from(c, 1));
    if w.len() > 1 {
        assert(has_lower(c)) by {
            assert(spec_is_lower(c[1]));
        }
        assert(spec_detect_case(c) == CaseType::FirstUpper);
    } else {
        assert(!has_lower(c)) by {
            assert forall|i: int| 0 <= i < c.len() implies !spec_is_lower(#[trigger] c[i]) by {
                assert(i == 0);
            }
        }
        assert(spec_detect_case(c) == CaseType::AllUpper);
    }
}


/// Hyphen-aware checks of one word with a speller that answers alike for
/// alike words give one result.
proof fn lemma_hyphen_aware_alike<S: Speller>(
    speller: &S,
    w: Seq<char>,
    accept_missing_hyphens: bool,
    a: SpellResult,
    b: SpellResult,
)
    requires
        answers_alike(speller),
        hyphen_aware_answer(speller, w, accept_missing_hyphens, a),
        hyphen_aware_answer(speller, w, accept_missing_hyphens, b),
    ensures
        a == b,
{
    let (fa, sa) = choose|first: SpellResult, second: SpellResult|
        #[trigger] hyphen_decision(w, w.len() as int, accept_missing_hyphens, first, second) == a
            && speller_answer(speller, w, first)
            && (asks_with_hyphens(w, w.len() as int, accept_missing_hyphens, first) ==> speller_answer(
                speller,
                spec_with_missing_hyphens(w),
                second,
            ));
    let (fb, sb) = choose|first: SpellResult, second: SpellResult|
        #[trigger] hyphen_decision(w, w.len() as int, accept_missing_hyphens, first, second) == b
            && speller_answer(speller, w, first)
            && (asks_with_hyphens(w, w.len() as int, accept_missing_hyphens, first) ==> speller_answer(
                speller,
                spec_with_missing_hyphens(w),
                second,
            ));
    assert(fa == fb);
    if asks_with_hyphens(w, w.len() as int, accept_missing_hyphens, fa) {
        assert(sa == sb);
    }
}

/// What `spell_check` sees of an ASCII lowercase word, of the word all in
/// uppercase and of the word with a capital first letter: all three are
/// normal, hold no digit, no dot and no non-word pattern, have the case
/// patterns all lowercase, all uppercase and first uppercase (all
/// uppercase for one letter), and lowercase to the word itself.
proof fn lemma_case_forms(w: Seq<char>)
    requires
        0 < w.len(),
        all_in(w, 'a', 'z'),
    ensures
        ({
            let u = Seq::new(w.len(), |i: int| ascii_upper(w[i]));
            let c = w.update(0, ascii_upper(w[0]));
            &&& spec_normalize(w) == w && spec_normalize(u) == u && spec_normalize(c) == c
            &&& !has_digit(w) && !has_digit(u) && !has_digit(c)
            &&& !spec_is_nonword(w) && !spec_is_nonword(u) && !spec_is_nonword(c)
            &&& lowercase_of(w.last()) != '.' && lowercase_of(u.last()) != '.' && lowercase_of(c.last()) != '.'
            &&& spec_detect_case(w) == CaseType::AllLower
            &&& spec_detect_case(u) == CaseType::AllUpper
            &&& spec_detect_case(c) == if w.len() > 1 {
                CaseType::FirstUpper
            } else {
                CaseType::AllUpper
            }
            &&& lowered_normal(w) == w && lowered_normal(u) == w && lowered_normal(c) == w
        }),
{
    let u = Seq::new(w.len(), |i: int| ascii_upper(w[i]));
    let c = w.update(0, ascii_upper(w[0]));
    assert forall|i: int| 0 <= i < w.len() implies ('a' <= #[trigger] w[i] <= 'z' || 'A' <= w[i] <= 'Z') by {}
    assert forall|i: int| 0 <= i < u.len() implies ('a' <= #[trigger] u[i] <= 'z' || 'A' <= u[i] <= 'Z') by {
        assert('a' <= w[i] <= 'z');
    }
    assert forall|i: int| 0 <= i < c.len() implies ('a' <= #[trigger] c[i] <= 'z' || 'A' <= c[i] <= 'Z') by {
        assert('a' <= w[i] <= 'z');
    }
    lemma_letters_normal(w);
    lemma_letters_normal(u);
    lemma_letters_normal(c);
    assert(lowercase_of(w.last()) != '.') by {
        assert('a' <= w[w.len() - 1] <= 'z');
    }
    assert(lowercase_of(u.last()) != '.') by {
        assert('a' <= w[w.len() - 1] <= 'z');
        assert(lowercase_of(ascii_upper(w[w.len() - 1])) == w[w.len() - 1]);
    }
    assert(lowercase_of(c.last()) != '.') by {
        assert('a' <= w[w.len() - 1] <= 'z');
        assert('a' <= w[0] <= 'z');
        assert(lowercase_of(ascii_upper(w[0])) == w[0]);
    }
    assert forall|i: int| 0 <= i < w.len() implies !spec_is_upper(#[trigger] w[i]) && spec_is_lower(w[i]) by {
        assert('a' <= w[i] <= 'z');
        assert(lowercase_of(w[i]) == w[i]);
    }
    assert(has_lower(w)) by {
        assert(spec_is_lower(w[0]));
    }
    assert(!has_upper_from(w, 0));
    assert(spec_detect_case(w) == CaseType::AllLower);
    assert forall|i: int| 0 <= i < u.len() implies spec_is_upper(#[trigger] u[i]) && !spec_is_lower(u[i]) by {
        assert('a' <= w[i] <= 'z');
        assert(lowercase_of(ascii_upper(w[i])) == w[i]);
        assert(uppercase_of(ascii_upper(w[i])) == ascii_upper(w[i]));
    }
    assert(has_upper_from(u, 0)) by {
        assert(spec_is_upper(u[0]));
    }
    assert(!has_lower(u));
    assert(spec_detect_case(u) == CaseType::AllUpper);
    assert(spec_is_upper(c[0]) && !spec_is_lower(c[0])) by {
        assert('a' <= w[0] <= 'z');
        assert(lowercase_of(ascii_upper(w[0])) == w[0]);
        assert(uppercase_of(ascii_upper(w[0])) == ascii_upper(w[0]));
    }
    assert forall|i: int| 1 <= i < c.len() implies !spec_is_upper(#[trigger] c[i]) && spec_is_lower(c[i]) by {
        assert(c[i] == w[i]);
        assert('a' <= w[i] <= 'z');
        assert(lowercase_of(w[i]) == w[i]);
    }
    assert(!has_upper_from(c, 1));
    if w.len() > 1 {
        assert(has_lower(c)) by {
            assert(spec_is_lower(c[1]));
        }
        assert(spec_detect_case(c) == CaseType::FirstUpper);
    } else {
        assert(!has_lower(c)) by {
            assert forall|i: int| 0 <= i < c.len() implies !spec_is_lower(#[trigger] c[i]) by {
                assert(i == 0);
            }
        }
        assert(spec_detect_case(c) == CaseType::AllUpper);
    }
    assert forall|i: int| 0 <= i < w.len() implies #[trigger] lowercase_of(w[i]) == w[i] by {
        assert('a' <= w[i] <= 'z');
    }
    assert forall|i: int| 0 <= i < w.len() implies #[trigger] lowercase_of(ascii_upper(w[i])) == w[i] by {
        assert('a' <= w[i] <= 'z');
    }
    assert(lowered_normal(w) =~= w);
    assert(lowered_normal(u) =~= w) by {
        assert forall|i: int| 0 <= i < w.len() implies lowered_normal(u)[i] == w[i] by {
            assert(u[i] == ascii_upper(w[i]));
            assert(lowercase_of(ascii_upper(w[i])) == w[i]);
        }
    }
    assert(lowered_normal(c) =~= w) by {
        assert forall|i: int| 0 <= i < w.len() implies lowered_normal(c)[i] == w[i] by {
            if i == 0 {
                assert(lowercase_of(ascii_upper(w[0])) == w[0]);
            } else {
                assert(c[i] == w[i]);
                assert(lowercase_of(w[i]) == w[i]);
            }
        }
    }
}

/// Capitalization never makes a correct word wrong, for `spell_check`
/// itself: with a speller that answers alike for alike words, when the
/// check of an ASCII lowercase word `w` gives `VOIKKO_SPELL_OK`, the checks
/// of `w` written all in uppercase and of `w` with a capital first letter
/// give `VOIKKO_SPELL_OK` too, as long as those forms are accepted. Each
/// check is described by its contract: a decision (`spell_decision`) from
/// results that the speller's answers about its queries give
/// (`spell_answers`). The default options (`SpellOptions::default`) accept
/// both forms.
pub proof fn lemma_spell_check_case_monotone<S: Speller>(
    speller: &S,
    w: Seq<char>,
    options: SpellOptions,
    s1: SpellResult,
    s2: SpellResult,
    u1: SpellResult,
    u2: SpellResult,
    c1: SpellResult,
    c2: SpellResult,
)
    requires
        0 < w.len() <= MAX_WORD_CHARS,
        all_in(w, 'a', 'z'),
        answers_alike(speller),
        options.accept_first_uppercase,
        options.accept_all_uppercase,
        spell_decision(w, options, s1, s2) == VOIKKO_SPELL_OK,
        spell_answers(speller, w, options, s1, s2),
        spell_answers(speller, Seq::new(w.len(), |i: int| ascii_upper(w[i])), options, u1, u2),
        spell_answers(speller, w.update(0, ascii_upper(w[0])), options, c1, c2),
    ensures
        spell_decision(Seq::new(w.len(), |i: int| ascii_upper(w[i])), options, u1, u2) == VOIKKO_SPELL_OK,
        spell_decision(w.update(0, ascii_upper(w[0])), options, c1, c2) == VOIKKO_SPELL_OK,
{
    let u = Seq::new(w.len(), |i: int| ascii_upper(w[i]));
    let c = w.update(0, ascii_upper(w[0]));
    lemma_case_monotone(w, options, s1, s2);
    lemma_case_forms(w);
    assert(spell_asks_speller(w, options));
    assert(first_spell_query(w, options) == w);
    if spell_asks_speller(u, options) {
        assert(first_spell_query(u, options) == w);
        lemma_hyphen_aware_alike(speller, w, options.accept_missing_hyphens, s1, u1);
    }
    if spell_asks_speller(c, options) {
        assert(first_spell_query(c, options) == w);
        lemma_hyphen_aware_alike(speller, w, options.accept_missing_hyphens, s1, c1);
    }
}

} // verus!
