//! Finnish syllable rules: where a word segment may be hyphenated.
//!
//! Hyphenation buffers hold one byte per character: `' '` no break,
//! `'-'` a break before the character, `'='` a break where the character
//! is replaced by a hyphen, `'X'` hyphenation forbidden.

use vstd::prelude::*;
use vstd::slice::SliceAdditionalExecFns;
use crate::character::{
    is_consonant, is_vowel, lowercase_of, simple_lower, spec_is_ascii_digit, spec_is_consonant,
    spec_is_vowel,
};

verus! {

/// A hyphenation mark: `'-'` or `'='`.
pub open spec fn is_mark(b: u8) -> bool {
    b == 45u8 || b == 61u8
}

/// Some position in `from..to` holds `c`.
pub open spec fn contains_in(w: Seq<char>, c: char, from: int, to: int) -> bool {
    exists|k: int| from <= k < to && w[k] == c
}

/// `p` is the first position before `to` that holds `c`.
pub open spec fn first_at(w: Seq<char>, c: char, p: int, to: int) -> bool {
    0 <= p < to && w[p] == c && forall|k: int| 0 <= k < p ==> w[k] != c
}

/// A URL (`X*//X*.X+`), an email address (`X*@X+.X+`) or `www.X+.X+`,
/// judged on the first `n` characters: after the separator, a dot with at
/// least one character after it (and, for the email and `www.` forms, at
/// least one before it).
pub open spec fn spec_is_nonword(w: Seq<char>, n: int) -> bool {
    n >= 4 && ((exists|p: int|
        #[trigger] first_at(w, '/', p, n - 3) && p + 1 < n && w[p + 1] == '/' && contains_in(
            w,
            '.',
            p + 2,
            n - 1,
        )) || (exists|p: int|
        #[trigger] first_at(w, '@', p, n - 3) && p + 1 < n && w[p + 1] != '.' && p + 2 < n
            && contains_in(w, '.', p + 2, n - 1)) || (n >= 7 && w[0] == 'w' && w[1] == 'w' && w[2]
        == 'w' && w[3] == '.' && w[4] != '.' && contains_in(w, '.', 5, n - 1)))
}

fn first_index(word: &[char], c: char, to: usize) -> (r: Option<usize>)
    requires
        to <= word@.len(),
    ensures
        r matches Some(p) ==> first_at(word@, c, p as int, to as int),
        r is None ==> forall|p: int| !#[trigger] first_at(word@, c, p, to as int),
{
    let mut i: usize = 0;
    while i < to
        invariant
            to <= word@.len(),
            i <= to,
            forall|k: int| 0 <= k < i ==> word@[k] != c,
        decreases to - i,
    {
        if word[i] == c {
            return Some(i);
        }
        i += 1;
    }
    None
}

fn contains_between(word: &[char], c: char, from: usize, to: usize) -> (r: bool)
    requires
        to <= word@.len(),
    ensures
        r == contains_in(word@, c, from as int, to as int),
{
    let mut i = from;
    while i < to
        invariant
            to <= word@.len(),
            from <= i,
            forall|k: int| from <= k < i && k < to ==> word@[k] != c,
        decreases to - i,
    {
        if word[i] == c {
            return true;
        }
        i += 1;
    }
    false
}

proof fn lemma_first_unique(w: Seq<char>, c: char, p: int, q: int, to: int)
    requires
        first_at(w, c, p, to),
        first_at(w, c, q, to),
    ensures
        p == q,
{
    if p < q {
        assert(w[p] == c);
    }
    if q < p {
        assert(w[q] == c);
    }
}

/// Whether the first `nchars` characters look like a URL (`X*//X*.X+`), an
/// email address (`X*@X+.X+`) or a `www.X+.X+` name.
pub fn is_nonword(word: &[char], nchars: usize) -> (r: bool)
    requires
        nchars <= word@.len(),
    ensures
        r == spec_is_nonword(word@, nchars as int),
{
    if nchars < 4 {
        return false;
    }
    match first_index(word, '/', nchars - 3) {
        Some(p) => {
            proof {
                assert forall|q: int| #[trigger] first_at(word@, '/', q, nchars - 3) implies q
                    == p by {
                    lemma_first_unique(word@, '/', p as int, q, nchars - 3);
                }
            }
            if p + 1 < nchars && word[p + 1] == '/' && contains_between(word, '.', p + 2, nchars - 1) {
                return true;
            }
        },
        None => {},
    }
    match first_index(word, '@', nchars - 3) {
        Some(p) => {
            proof {
                assert forall|q: int| #[trigger] first_at(word@, '@', q, nchars - 3) implies q
                    == p by {
                    lemma_first_unique(word@, '@', p as int, q, nchars - 3);
                }
            }
            if p + 1 < nchars && word[p + 1] != '.' && p + 2 < nchars && contains_between(
                word,
                '.',
                p + 2,
                nchars - 1,
            ) {
                return true;
            }
        },
        None => {},
    }
    if nchars >= 7 && word[0] == 'w' && word[1] == 'w' && word[2] == 'w' && word[3] == '.'
        && word[4] != '.' && contains_between(word, '.', 5, nchars - 1) {
        return true;
    }
    false
}

/// Rule-based hyphenation is allowed: more than one character, and in
/// non-ugly mode neither a non-word nor ending with a digit.
pub open spec fn spec_allow_rule_hyphenation(w: Seq<char>, n: int, ugly: bool) -> bool {
    n > 1 && (ugly || (!spec_is_nonword(w, n) && !spec_is_ascii_digit(w[n - 1])))
}

/// Whether rule-based hyphenation is safe for the first `nchars` characters.
pub fn allow_rule_hyphenation(word: &[char], nchars: usize, ugly_hyphenation: bool) -> (r: bool)
    requires
        nchars <= word@.len(),
    ensures
        r == spec_allow_rule_hyphenation(word@, nchars as int, ugly_hyphenation),
{
    if nchars <= 1 {
        return false;
    }
    if !ugly_hyphenation {
        if is_nonword(word, nchars) {
            return false;
        }
        let last = word[nchars - 1];
        if '0' <= last && last <= '9' {
            return false;
        }
    }
    true
}

/// Some vowel at a position in `1..pos` with no hyphenation mark between
/// it and `pos`.
pub open spec fn vowel_before(w: Seq<char>, h: Seq<u8>, pos: int) -> bool {
    exists|k: int|
        1 <= k < pos && spec_is_vowel(#[trigger] w[k]) && forall|m: int|
            #![trigger h[m]]
            k <= m < pos ==> !is_mark(h[m])
}

/// Some vowel at a position in `pos..n`, with no hyphenation mark and no
/// dot from `pos` up to it.
pub open spec fn vowel_after(w: Seq<char>, h: Seq<u8>, pos: int, n: int) -> bool {
    exists|k: int|
        pos <= k < n && spec_is_vowel(#[trigger] w[k]) && forall|m: int|
            #![trigger h[m]]
            pos <= m <= k ==> !is_mark(h[m]) && w[m] != '.'
}

/// A break before `pos` leaves a vowel in the syllables on both sides.
pub open spec fn spec_is_good_hyphen_position(w: Seq<char>, h: Seq<u8>, pos: int, n: int) -> bool {
    0 < pos && pos + 1 < n && vowel_before(w, h, pos) && vowel_after(w, h, pos, n)
}

/// Whether a hyphenation point before `new_hyphen_pos` keeps a vowel in the
/// syllables before and after it.
pub fn is_good_hyphen_position(
    word: &[char],
    hyphenation_points: &[u8],
    new_hyphen_pos: usize,
    nchars: usize,
) -> (r: bool)
    requires
        nchars <= word@.len(),
        nchars <= hyphenation_points@.len(),
    ensures
        r == spec_is_good_hyphen_position(word@, hyphenation_points@, new_hyphen_pos as int, nchars as int),
{
    let ghost w = word@;
    let ghost h = hyphenation_points@;
    if nchars == 0 || new_hyphen_pos == 0 || new_hyphen_pos >= nchars - 1 {
        return false;
    }
    let pos = new_hyphen_pos;
    let mut has_vowel = false;
    let mut i: usize = pos - 1;
    loop
        invariant
            pos == new_hyphen_pos,
            i < pos,
            pos + 1 < nchars <= w.len(),
            nchars <= h.len(),
            w == word@,
            h == hyphenation_points@,
            forall|m: int| i < m < pos ==> !is_mark(h[m]),
            has_vowel == exists|k: int| i < k < pos && spec_is_vowel(#[trigger] w[k]),
        ensures
            has_vowel == vowel_before(w, h, pos as int),
        decreases i,
    {
        if hyphenation_points[i] == 45u8 || hyphenation_points[i] == 61u8 {
            proof {
                if has_vowel {
                    let k = choose|k: int| i < k < pos && spec_is_vowel(#[trigger] w[k]);
                    assert(forall|m: int| k <= m < pos ==> !is_mark(h[m]));
                } else {
                    assert forall|k: int| 1 <= k < pos && spec_is_vowel(#[trigger] w[k]) implies !(
                    forall|m: int| k <= m < pos ==> !is_mark(h[m])) by {
                        assert(k <= i);
                        assert(is_mark(h[i as int]));
                    }
                }
            }
            break;
        }
        if i == 0 {
            proof {
                if has_vowel {
                    let k = choose|k: int| i < k < pos && spec_is_vowel(#[trigger] w[k]);
                    assert(forall|m: int| k <= m < pos ==> !is_mark(h[m]));
                }
            }
            break;
        }
        if is_vowel(word[i]) {
            has_vowel = true;
        }
        i -= 1;
    }
    if !has_vowel {
        return false;
    }
    has_vowel = false;
    let mut j: usize = pos;
    while j < nchars
        invariant
            pos <= j <= nchars,
            pos + 1 < nchars <= w.len(),
            nchars <= h.len(),
            w == word@,
            h == hyphenation_points@,
            pos == new_hyphen_pos,
            vowel_before(w, h, pos as int),
            forall|m: int| pos <= m < j ==> !is_mark(#[trigger] h[m]),
            forall|m: int| pos <= m < j ==> #[trigger] w[m] != '.',
            !has_vowel,
            forall|k: int| pos <= k < j ==> !spec_is_vowel(#[trigger] w[k]),
        decreases nchars - j,
    {
        if hyphenation_points[j] == 45u8 || hyphenation_points[j] == 61u8 {
            proof {
                assert forall|k: int| pos <= k < nchars && spec_is_vowel(#[trigger] w[k]) implies !(
                forall|m: int| #![trigger h[m]] pos <= m <= k ==> !is_mark(h[m]) && w[m] != '.') by {
                    assert(k >= j);
                    if forall|m: int| #![trigger h[m]] pos <= m <= k ==> !is_mark(h[m]) && w[m] != '.' {
                        assert(!is_mark(h[j as int]));
                    }
                }
                assert(!vowel_after(w, h, pos as int, nchars as int));
            }
            return false;
        }
        if word[j] == '.' {
            proof {
                assert forall|k: int| pos <= k < nchars && spec_is_vowel(#[trigger] w[k]) implies !(
                forall|m: int| #![trigger h[m]] pos <= m <= k ==> !is_mark(h[m]) && w[m] != '.') by {
                    assert(k >= j);
                    if forall|m: int| #![trigger h[m]] pos <= m <= k ==> !is_mark(h[m]) && w[m] != '.' {
                        assert(h[j as int] == h[j as int]);
                        assert(w[j as int] != '.');
                    }
                }
                assert(!vowel_after(w, h, pos as int, nchars as int));
            }
            return false;
        }
        assert(!is_mark(h[j as int]));
        assert(w[j as int] != '.');
        if is_vowel(word[j]) {
            proof {
                assert(forall|m: int| #![trigger h[m]] pos <= m <= j ==> !is_mark(h[m]) && w[m] != '.');
                assert(vowel_after(w, h, pos as int, nchars as int));
            }
            return true;
        }
        j += 1;
    }
    false
}


/// The first `n` characters of `w`, lowercased.
pub open spec fn lower_seq(w: Seq<char>, n: int) -> Seq<char> {
    Seq::new(n as nat, |i: int| lowercase_of(w[i]))
}

/// Characters after which no break is placed by the consonant-vowel rule.
pub open spec fn is_special_before_hyphen(c: char) -> bool {
    c == '/' || c == '.' || c == ':' || c == '&' || c == '%' || c == '\''
}

/// Vowel pairs that may be split: they form no diphthong.
pub open spec fn is_split_vowel_pair(a: char, b: char) -> bool {
    (a == 'a' && b == 'e') || (a == 'a' && b == 'o') || (a == 'e' && b == 'a') || (a == 'e' && b
        == 'o') || (a == 'i' && b == 'a') || (a == 'i' && b == 'o') || (a == 'o' && b == 'a') || (a
        == 'o' && b == 'e') || (a == 'u' && b == 'a') || (a == 'u' && b == 'e') || (a == 'y' && b
        == 'e') || (a == 'e' && b == '\u{00E4}') || (a == 'e' && b == '\u{00F6}') || (a == 'i' && b
        == '\u{00E4}') || (a == 'i' && b == '\u{00F6}') || (a == 'y' && b == '\u{00E4}') || (a
        == '\u{00E4}' && b == 'e') || (a == '\u{00F6}' && b == 'e')
}

fn split_vowel_pair(a: char, b: char) -> (r: bool)
    ensures
        r == is_split_vowel_pair(a, b),
{
    (a == 'a' && b == 'e') || (a == 'a' && b == 'o') || (a == 'e' && b == 'a') || (a == 'e' && b
        == 'o') || (a == 'i' && b == 'a') || (a == 'i' && b == 'o') || (a == 'o' && b == 'a') || (a
        == 'o' && b == 'e') || (a == 'u' && b == 'a') || (a == 'u' && b == 'e') || (a == 'y' && b
        == 'e') || (a == 'e' && b == '\u{00E4}') || (a == 'e' && b == '\u{00F6}') || (a == 'i' && b
        == '\u{00E4}') || (a == 'i' && b == '\u{00F6}') || (a == 'y' && b == '\u{00E4}') || (a
        == '\u{00E4}' && b == 'e') || (a == '\u{00F6}' && b == 'e')
}

/// Consonant clusters that are never split.
pub open spec fn long_consonants() -> Seq<Seq<char>> {
    seq![
        seq!['\u{0161}', 't', '\u{0161}'],
        seq!['s', 'h', 't', 's', 'h'],
        seq!['t', 's', 'h'],
        seq!['t', '\u{0161}'],
        seq!['z', 'h'],
    ]
}

/// Index of the first character at or after `i` that is not a consonant.
pub open spec fn skip_consonants(wl: Seq<char>, i: int) -> int
    decreases wl.len() - i,
{
    if 0 <= i < wl.len() && spec_is_consonant(wl[i]) {
        skip_consonants(wl, i + 1)
    } else {
        i
    }
}

/// Consonant-vowel break before position `i`.
pub open spec fn cv_break(wl: Seq<char>, i: int, ugly: bool) -> bool {
    spec_is_consonant(wl[i]) && spec_is_vowel(wl[i + 1]) && i >= 1 && !is_special_before_hyphen(
        wl[i - 1],
    ) && (i <= 1 || ugly || wl[i - 2] != '\'')
}

/// Rule 1: a break before each consonant followed by a vowel, after the
/// leading consonants.
pub open spec fn rule_cv(wl: Seq<char>, h: Seq<u8>, n: int, ugly: bool) -> Seq<u8> {
    let s = skip_consonants(wl, 0);
    Seq::new(
        h.len(),
        |j: int|
            if s <= j <= n - 2 && cv_break(wl, j, ugly) {
                45u8
            } else {
                h[j]
            },
    )
}

/// Rule 2: an apostrophe before a vowel is a compound break.
pub open spec fn rule_apostrophe(wl: Seq<char>, h: Seq<u8>, n: int) -> Seq<u8> {
    Seq::new(
        h.len(),
        |j: int|
            if 1 <= j < n - 1 && wl[j] == '\'' && spec_is_vowel(wl[j + 1]) {
                61u8
            } else {
                h[j]
            },
    )
}

/// Rule 3 at position `i`: around a long vowel, a break before it (after
/// another vowel) and after it, where the positions are good.
pub open spec fn long_vowel_step(wl: Seq<char>, h: Seq<u8>, i: int, n: int) -> Seq<u8> {
    if spec_is_vowel(wl[i]) && wl[i] == wl[i + 1] {
        let ha = if spec_is_vowel(wl[i - 1]) && spec_is_good_hyphen_position(wl, h, i, n) {
            h.update(i, 45u8)
        } else {
            h
        };
        if i + 2 < n && spec_is_good_hyphen_position(wl, ha, i + 2, n) {
            ha.update(i + 2, 45u8)
        } else {
            ha
        }
    } else {
        h
    }
}

/// Rule 3 applied at positions `1..i`, in order.
pub open spec fn rule_long_vowels_upto(wl: Seq<char>, h: Seq<u8>, n: int, i: int) -> Seq<u8>
    decreases i,
{
    if i <= 1 {
        h
    } else {
        long_vowel_step(wl, rule_long_vowels_upto(wl, h, n, i - 1), i - 1, n)
    }
}

/// Rule 4: a break inside a vowel pair that forms no diphthong, where no
/// mark stands yet.
pub open spec fn rule_split_vowels(wl: Seq<char>, h: Seq<u8>, n: int) -> Seq<u8> {
    Seq::new(
        h.len(),
        |j: int|
            if 1 <= j < n && h[j] == 32u8 && spec_is_vowel(wl[j - 1]) && spec_is_vowel(wl[j])
                && is_split_vowel_pair(wl[j - 1], wl[j]) {
                45u8
            } else {
                h[j]
            },
    )
}

/// Last position that a cluster starting at `i` may move a break from.
pub open spec fn cluster_reach(i: int, len: int, n: int) -> int {
    if i + len < n - 1 {
        i + len
    } else {
        n - 1
    }
}

/// Rule 5 for one cluster at `i`: breaks inside the cluster move before it.
pub open spec fn cluster_step(wl: Seq<char>, h: Seq<u8>, i: int, n: int, lc: Seq<char>) -> Seq<u8> {
    let hi = cluster_reach(i, lc.len() as int, n);
    if i + lc.len() <= n && wl.subrange(i, i + lc.len()) == lc && exists|k: int|
        i < k <= hi && h[k] == 45u8 {
        Seq::new(
            h.len(),
            |j: int|
                if i < j <= hi && h[j] == 45u8 {
                    32u8
                } else if j == i {
                    45u8
                } else {
                    h[j]
                },
        )
    } else {
        h
    }
}

/// Rule 5 at position `i` for the first `c` clusters.
pub open spec fn clusters_step(wl: Seq<char>, h: Seq<u8>, i: int, n: int, c: int) -> Seq<u8>
    decreases c,
{
    if c <= 0 {
        h
    } else {
        cluster_step(wl, clusters_step(wl, h, i, n, c - 1), i, n, long_consonants()[c - 1])
    }
}

/// Rule 5 applied at positions `1..i`, in order.
pub open spec fn rule_long_consonants_upto(wl: Seq<char>, h: Seq<u8>, n: int, i: int) -> Seq<u8>
    decreases i,
{
    if i <= 1 {
        h
    } else {
        clusters_step(wl, rule_long_consonants_upto(wl, h, n, i - 1), i - 1, n, 5)
    }
}

/// Rule 6 (without ugly hyphenation): no break after the first or before
/// the last character, nor inside a vowel pair.
pub open spec fn rule_no_ugly(wl: Seq<char>, h: Seq<u8>, n: int) -> Seq<u8> {
    Seq::new(
        h.len(),
        |j: int|
            if j == 1 || j == n - 1 || (1 <= j < n && spec_is_vowel(wl[j - 1]) && spec_is_vowel(
                wl[j],
            )) {
                32u8
            } else {
                h[j]
            },
    )
}

/// Rule 7 at position `i` (ugly hyphenation): after "ie" or "ai", a break
/// before a following vowel where the position is good.
pub open spec fn split_after_step(wl: Seq<char>, h: Seq<u8>, i: int, n: int) -> Seq<u8> {
    if h[i + 1] != 45u8 && ((wl[i] == 'i' && wl[i + 1] == 'e') || (wl[i] == 'a' && wl[i + 1]
        == 'i')) && spec_is_vowel(wl[i + 2]) && spec_is_good_hyphen_position(wl, h, i + 2, n) {
        h.update(i + 2, 45u8)
    } else {
        h
    }
}

/// Rule 7 applied at positions `0..i`, in order.
pub open spec fn rule_split_after_upto(wl: Seq<char>, h: Seq<u8>, n: int, i: int) -> Seq<u8>
    decreases i,
{
    if i <= 0 {
        h
    } else {
        split_after_step(wl, rule_split_after_upto(wl, h, n, i - 1), i - 1, n)
    }
}

/// Finnish syllable rules applied to the first `n` positions of a
/// hyphenation buffer, for the word segment `w`.
pub open spec fn spec_rule_hyphenation(w: Seq<char>, h: Seq<u8>, n: int, ugly: bool) -> Seq<u8> {
    if !spec_allow_rule_hyphenation(w, n, ugly) || h[0] == 88u8 {
        h
    } else {
        let wl = lower_seq(w, n);
        let h1 = rule_cv(wl, h, n, ugly);
        let h2 = rule_apostrophe(wl, h1, n);
        let h3 = rule_long_vowels_upto(wl, h2, n, n - 1);
        let h4 = rule_split_vowels(wl, h3, n);
        let h5 = rule_long_consonants_upto(wl, h4, n, n - 1);
        if !ugly {
            rule_no_ugly(wl, h5, n)
        } else if n >= 3 {
            rule_split_after_upto(wl, h5, n, n - 3)
        } else {
            h5
        }
    }
}

proof fn lemma_skip_consonants_past(wl: Seq<char>, i: int, j: int)
    requires
        0 <= i <= j < wl.len(),
        forall|m: int| i <= m <= j ==> spec_is_consonant(#[trigger] wl[m]),
    ensures
        skip_consonants(wl, i) > j,
    decreases wl.len() - i,
{
    assert(spec_is_consonant(wl[i]));
    if i < j {
        lemma_skip_consonants_past(wl, i + 1, j);
    } else {
        assert(skip_consonants(wl, i) == skip_consonants(wl, i + 1));
        assert(skip_consonants(wl, i + 1) >= i + 1) by {
            lemma_skip_consonants_from(wl, i + 1);
        }
    }
}

proof fn lemma_skip_consonants_from(wl: Seq<char>, i: int)
    ensures
        skip_consonants(wl, i) >= i,
    decreases wl.len() - i,
{
    if 0 <= i < wl.len() && spec_is_consonant(wl[i]) {
        lemma_skip_consonants_from(wl, i + 1);
    }
}

/// The consonant-vowel rule never breaks inside the consonants that start a
/// word segment: a position whose character and all characters before it
/// are consonants keeps its mark.
pub proof fn lemma_rule_cv_keeps_leading_consonants(wl: Seq<char>, h: Seq<u8>, n: int, ugly: bool, j: int)
    requires
        0 <= j < h.len(),
        j < wl.len(),
        forall|m: int| 0 <= m <= j ==> spec_is_consonant(#[trigger] wl[m]),
    ensures
        rule_cv(wl, h, n, ugly)[j] == h[j],
{
    lemma_skip_consonants_past(wl, 0, j);
}

/// The consonants from position `i` on are those up to `skip_consonants`,
/// which holds none.
proof fn lemma_skip_consonants_props(wl: Seq<char>, i: int)
    requires
        0 <= i <= wl.len(),
    ensures
        i <= skip_consonants(wl, i) <= wl.len(),
        forall|m: int| i <= m < skip_consonants(wl, i) ==> spec_is_consonant(#[trigger] wl[m]),
        skip_consonants(wl, i) < wl.len() ==> !spec_is_consonant(wl[skip_consonants(wl, i)]),
    decreases wl.len() - i,
{
    if i < wl.len() && spec_is_consonant(wl[i]) {
        lemma_skip_consonants_props(wl, i + 1);
    }
}

/// The positions before the first non-consonant of `wl` are blank in `g`,
/// and that position (inside the segment) holds no break.
pub open spec fn leading_clear(wl: Seq<char>, g: Seq<u8>, n: int) -> bool {
    let l = skip_consonants(wl, 0);
    &&& forall|m: int| 0 <= m < l ==> #[trigger] g[m] == 32u8
    &&& l < n ==> g[l] != 45u8
}

proof fn lemma_cv_clear(wl: Seq<char>, h: Seq<u8>, n: int, ugly: bool)
    requires
        wl.len() == n,
        n <= h.len(),
        leading_clear(wl, h, n),
    ensures
        leading_clear(wl, rule_cv(wl, h, n, ugly), n),
        rule_cv(wl, h, n, ugly).len() == h.len(),
{
    lemma_skip_consonants_props(wl, 0);
}

proof fn lemma_apostrophe_clear(wl: Seq<char>, h: Seq<u8>, n: int)
    requires
        wl.len() == n,
        n <= h.len(),
        leading_clear(wl, h, n),
    ensures
        leading_clear(wl, rule_apostrophe(wl, h, n), n),
        rule_apostrophe(wl, h, n).len() == h.len(),
{
    lemma_skip_consonants_props(wl, 0);
    let l = skip_consonants(wl, 0);
    let r = rule_apostrophe(wl, h, n);
    assert forall|m: int| 0 <= m < l implies #[trigger] r[m] == 32u8 by {
        assert(spec_is_consonant(wl[m]));
    }
}

proof fn lemma_long_vowels_clear(wl: Seq<char>, h: Seq<u8>, n: int, i: int)
    requires
        wl.len() == n,
        n <= h.len(),
        i <= n - 1,
        leading_clear(wl, h, n),
    ensures
        leading_clear(wl, rule_long_vowels_upto(wl, h, n, i), n),
        rule_long_vowels_upto(wl, h, n, i).len() == h.len(),
    decreases i,
{
    if i > 1 {
        lemma_long_vowels_clear(wl, h, n, i - 1);
        lemma_skip_consonants_props(wl, 0);
        let l = skip_consonants(wl, 0);
        let g = rule_long_vowels_upto(wl, h, n, i - 1);
        let k = i - 1;
        if spec_is_vowel(wl[k]) && wl[k] == wl[k + 1] {
            assert(k >= l) by {
                if k < l {
                    assert(spec_is_consonant(wl[k]));
                }
            }
            let ha = if spec_is_vowel(wl[k - 1]) && spec_is_good_hyphen_position(wl, g, k, n) {
                assert(k - 1 >= l) by {
                    if k - 1 < l {
                        assert(spec_is_consonant(wl[k - 1]));
                    }
                }
                g.update(k, 45u8)
            } else {
                g
            };
            assert(leading_clear(wl, ha, n));
            if k + 2 < n && spec_is_good_hyphen_position(wl, ha, k + 2, n) {
                assert(leading_clear(wl, ha.update(k + 2, 45u8), n));
            }
        }
    }
}

proof fn lemma_split_vowels_clear(wl: Seq<char>, h: Seq<u8>, n: int)
    requires
        wl.len() == n,
        n <= h.len(),
        leading_clear(wl, h, n),
    ensures
        leading_clear(wl, rule_split_vowels(wl, h, n), n),
        rule_split_vowels(wl, h, n).len() == h.len(),
{
    lemma_skip_consonants_props(wl, 0);
    let l = skip_consonants(wl, 0);
    let r = rule_split_vowels(wl, h, n);
    assert forall|m: int| 0 <= m < l implies #[trigger] r[m] == 32u8 by {
        if m >= 1 {
            assert(spec_is_consonant(wl[m - 1]));
        }
    }
    if l < n && l >= 1 {
        assert(spec_is_consonant(wl[l - 1]));
    }
}

/// Every character of a cluster that is never split, other than `š`, is a
/// consonant.
proof fn lemma_cluster_consonants(c: int, m: int)
    requires
        0 <= c < 5,
        0 <= m < long_consonants()[c].len(),
        long_consonants()[c][m] != '\u{0161}',
    ensures
        spec_is_consonant(long_consonants()[c][m]),
{
}

proof fn lemma_cluster_clear(wl: Seq<char>, h: Seq<u8>, i: int, n: int, c: int)
    requires
        wl.len() == n,
        n <= h.len(),
        0 <= c < 5,
        1 <= i,
        forall|m: int| 0 <= m < n ==> #[trigger] wl[m] != '\u{0161}',
        leading_clear(wl, h, n),
    ensures
        leading_clear(wl, cluster_step(wl, h, i, n, long_consonants()[c]), n),
        cluster_step(wl, h, i, n, long_consonants()[c]).len() == h.len(),
{
    lemma_skip_consonants_props(wl, 0);
    let l = skip_consonants(wl, 0);
    let lc = long_consonants()[c];
    let hi = cluster_reach(i, lc.len() as int, n);
    if i + lc.len() <= n && wl.subrange(i, i + lc.len()) == lc {
        assert forall|m: int| i <= m < i + lc.len() implies spec_is_consonant(#[trigger] wl[m]) by {
            assert(wl.subrange(i, i + lc.len())[m - i] == wl[m]);
            lemma_cluster_consonants(c, m - i);
        }
        if i < l {
            assert forall|m: int| 0 <= m < i + lc.len() implies spec_is_consonant(#[trigger] wl[m]) by {
                if m >= i {
                    assert(spec_is_consonant(wl[m]));
                }
            }
            assert(l >= i + lc.len()) by {
                if l < i + lc.len() {
                    assert(spec_is_consonant(wl[l]));
                }
            }
            assert forall|k: int| i < k <= hi implies h[k] != 45u8 by {
                if k < l {
                    assert(h[k] == 32u8);
                }
            }
        } else {
            assert(i != l) by {
                if i == l {
                    assert(wl.subrange(i, i + lc.len())[0] == wl[i]);
                    assert(spec_is_consonant(wl[i]));
                }
            }
        }
    }
}

proof fn lemma_clusters_clear(wl: Seq<char>, h: Seq<u8>, i: int, n: int, c: int)
    requires
        wl.len() == n,
        n <= h.len(),
        0 <= c <= 5,
        1 <= i,
        forall|m: int| 0 <= m < n ==> #[trigger] wl[m] != '\u{0161}',
        leading_clear(wl, h, n),
    ensures
        leading_clear(wl, clusters_step(wl, h, i, n, c), n),
        clusters_step(wl, h, i, n, c).len() == h.len(),
    decreases c,
{
    if c > 0 {
        lemma_clusters_clear(wl, h, i, n, c - 1);
        lemma_cluster_clear(wl, clusters_step(wl, h, i, n, c - 1), i, n, c - 1);
    }
}

proof fn lemma_long_consonants_clear(wl: Seq<char>, h: Seq<u8>, n: int, i: int)
    requires
        wl.len() == n,
        n <= h.len(),
        forall|m: int| 0 <= m < n ==> #[trigger] wl[m] != '\u{0161}',
        leading_clear(wl, h, n),
    ensures
        leading_clear(wl, rule_long_consonants_upto(wl, h, n, i), n),
        rule_long_consonants_upto(wl, h, n, i).len() == h.len(),
    decreases i,
{
    if i > 1 {
        lemma_long_consonants_clear(wl, h, n, i - 1);
        lemma_clusters_clear(wl, rule_long_consonants_upto(wl, h, n, i - 1), i - 1, n, 5);
    }
}

proof fn lemma_no_ugly_clear(wl: Seq<char>, h: Seq<u8>, n: int)
    requires
        wl.len() == n,
        n <= h.len(),
        leading_clear(wl, h, n),
    ensures
        leading_clear(wl, rule_no_ugly(wl, h, n), n),
        rule_no_ugly(wl, h, n).len() == h.len(),
{
    let l = skip_consonants(wl, 0);
    lemma_skip_consonants_props(wl, 0);
    let r = rule_no_ugly(wl, h, n);
    assert forall|m: int| 0 <= m < l implies #[trigger] r[m] == 32u8 by {
        assert(h[m] == 32u8);
    }
    if l < n {
        assert(r[l] == 32u8 || r[l] == h[l]);
    }
}

proof fn lemma_split_after_clear(wl: Seq<char>, h: Seq<u8>, n: int, i: int)
    requires
        wl.len() == n,
        n <= h.len(),
        i <= n - 3,
        leading_clear(wl, h, n),
    ensures
        leading_clear(wl, rule_split_after_upto(wl, h, n, i), n),
        rule_split_after_upto(wl, h, n, i).len() == h.len(),
    decreases i,
{
    if i > 0 {
        lemma_split_after_clear(wl, h, n, i - 1);
        lemma_skip_consonants_props(wl, 0);
        let l = skip_consonants(wl, 0);
        let g = rule_split_after_upto(wl, h, n, i - 1);
        let k = i - 1;
        if g[k + 1] != 45u8 && ((wl[k] == 'i' && wl[k + 1] == 'e') || (wl[k] == 'a' && wl[k + 1] == 'i'))
            && spec_is_vowel(wl[k + 2]) && spec_is_good_hyphen_position(wl, g, k + 2, n) {
            assert(k >= l) by {
                if k < l {
                    assert(spec_is_consonant(wl[k]));
                }
            }
            assert(leading_clear(wl, g.update(k + 2, 45u8), n));
        }
    }
}

/// The syllable rules put no break before the first vowel of a word
/// segment: on a blank buffer, every position whose character and all
/// characters before it are consonants stays blank. (Stated for segments
/// without `š`, whose case mapping is only named.)
pub proof fn lemma_no_break_in_leading_consonants(w: Seq<char>, h: Seq<u8>, n: int, ugly: bool, j: int)
    requires
        0 <= j < n <= h.len(),
        n <= w.len(),
        forall|m: int| 0 <= m < n ==> #[trigger] h[m] == 32u8,
        forall|m: int| 0 <= m < n ==> #[trigger] lower_seq(w, n)[m] != '\u{0161}',
        forall|m: int| 0 <= m <= j ==> spec_is_consonant(#[trigger] lower_seq(w, n)[m]),
    ensures
        spec_rule_hyphenation(w, h, n, ugly)[j] == 32u8,
{
    let wl = lower_seq(w, n);
    lemma_skip_consonants_props(wl, 0);
    lemma_skip_consonants_past(wl, 0, j);
    let l = skip_consonants(wl, 0);
    assert(leading_clear(wl, h, n)) by {
        assert forall|m: int| 0 <= m < l implies #[trigger] h[m] == 32u8 by {}
        if l < n {
            assert(h[l] == 32u8);
        }
    }
    if spec_allow_rule_hyphenation(w, n, ugly) && h[0] != 88u8 {
        lemma_cv_clear(wl, h, n, ugly);
        let h1 = rule_cv(wl, h, n, ugly);
        lemma_apostrophe_clear(wl, h1, n);
        let h2 = rule_apostrophe(wl, h1, n);
        lemma_long_vowels_clear(wl, h2, n, n - 1);
        let h3 = rule_long_vowels_upto(wl, h2, n, n - 1);
        lemma_split_vowels_clear(wl, h3, n);
        let h4 = rule_split_vowels(wl, h3, n);
        lemma_long_consonants_clear(wl, h4, n, n - 1);
        let h5 = rule_long_consonants_upto(wl, h4, n, n - 1);
        if !ugly {
            lemma_no_ugly_clear(wl, h5, n);
        } else if n >= 3 {
            lemma_split_after_clear(wl, h5, n, n - 3);
        }
    }
}

/// A byte of a hyphenation buffer: `' '`, `'-'`, `'='` or `'X'`.
pub open spec fn is_buffer_byte(b: u8) -> bool {
    b == 32u8 || b == 45u8 || b == 61u8 || b == 88u8
}

/// Every position of a buffer holds `' '`, `'-'`, `'='` or `'X'`.
pub open spec fn buffer_marks(h: Seq<u8>) -> bool {
    forall|i: int| 0 <= i < h.len() ==> #[trigger] is_buffer_byte(h[i])
}

proof fn lemma_long_vowels_marks(wl: Seq<char>, h: Seq<u8>, n: int, i: int)
    requires
        buffer_marks(h),
        n <= h.len(),
        i <= n - 1,
    ensures
        rule_long_vowels_upto(wl, h, n, i).len() == h.len(),
        buffer_marks(rule_long_vowels_upto(wl, h, n, i)),
    decreases i,
{
    if i > 1 {
        lemma_long_vowels_marks(wl, h, n, i - 1);
        let g = rule_long_vowels_upto(wl, h, n, i - 1);
        let k = i - 1;
        if spec_is_vowel(wl[k]) && wl[k] == wl[k + 1] {
            let ha = if spec_is_vowel(wl[k - 1]) && spec_is_good_hyphen_position(wl, g, k, n) {
                g.update(k, 45u8)
            } else {
                g
            };
            assert(ha.len() == h.len());
            assert(buffer_marks(ha)) by {
                assert forall|j: int| 0 <= j < ha.len() implies #[trigger] is_buffer_byte(ha[j]) by {
                    assert(is_buffer_byte(g[j]));
                }
            }
            if k + 2 < n && spec_is_good_hyphen_position(wl, ha, k + 2, n) {
                let hb = ha.update(k + 2, 45u8);
                assert forall|j: int| 0 <= j < hb.len() implies #[trigger] is_buffer_byte(hb[j]) by {
                    assert(is_buffer_byte(ha[j]));
                }
            }
        }
    }
}

proof fn lemma_clusters_marks(wl: Seq<char>, h: Seq<u8>, i: int, n: int, c: int)
    requires
        buffer_marks(h),
    ensures
        clusters_step(wl, h, i, n, c).len() == h.len(),
        buffer_marks(clusters_step(wl, h, i, n, c)),
    decreases c,
{
    if c > 0 {
        lemma_clusters_marks(wl, h, i, n, c - 1);
        let g = clusters_step(wl, h, i, n, c - 1);
        let r = cluster_step(wl, g, i, n, long_consonants()[c - 1]);
        assert forall|j: int| 0 <= j < r.len() implies #[trigger] is_buffer_byte(r[j]) by {
            assert(is_buffer_byte(g[j]));
        }
    }
}

proof fn lemma_long_consonants_marks(wl: Seq<char>, h: Seq<u8>, n: int, i: int)
    requires
        buffer_marks(h),
    ensures
        rule_long_consonants_upto(wl, h, n, i).len() == h.len(),
        buffer_marks(rule_long_consonants_upto(wl, h, n, i)),
    decreases i,
{
    if i > 1 {
        lemma_long_consonants_marks(wl, h, n, i - 1);
        lemma_clusters_marks(wl, rule_long_consonants_upto(wl, h, n, i - 1), i - 1, n, 5);
    }
}

proof fn lemma_split_after_marks(wl: Seq<char>, h: Seq<u8>, n: int, i: int)
    requires
        buffer_marks(h),
        n <= h.len(),
        i <= n - 3,
    ensures
        rule_split_after_upto(wl, h, n, i).len() == h.len(),
        buffer_marks(rule_split_after_upto(wl, h, n, i)),
    decreases i,
{
    if i > 0 {
        lemma_split_after_marks(wl, h, n, i - 1);
        let g = rule_split_after_upto(wl, h, n, i - 1);
        let r = split_after_step(wl, g, i - 1, n);
        assert forall|j: int| 0 <= j < r.len() implies #[trigger] is_buffer_byte(r[j]) by {
            assert(is_buffer_byte(g[j]));
        }
    }
}

/// The syllable rules keep the length of a buffer and write only `' '`,
/// `'-'` and `'='` into it.
pub(crate) proof fn lemma_rule_hyphenation_marks(w: Seq<char>, h: Seq<u8>, n: int, ugly: bool)
    requires
        buffer_marks(h),
        0 <= n <= h.len(),
    ensures
        spec_rule_hyphenation(w, h, n, ugly).len() == h.len(),
        buffer_marks(spec_rule_hyphenation(w, h, n, ugly)),
{
    if spec_allow_rule_hyphenation(w, n, ugly) && h[0] != 88u8 {
        let wl = lower_seq(w, n);
        let h1 = rule_cv(wl, h, n, ugly);
        assert forall|j: int| 0 <= j < h1.len() implies #[trigger] is_buffer_byte(h1[j]) by {
            assert(is_buffer_byte(h[j]));
        }
        let h2 = rule_apostrophe(wl, h1, n);
        assert forall|j: int| 0 <= j < h2.len() implies #[trigger] is_buffer_byte(h2[j]) by {
            assert(is_buffer_byte(h1[j]));
        }
        lemma_long_vowels_marks(wl, h2, n, n - 1);
        let h3 = rule_long_vowels_upto(wl, h2, n, n - 1);
        let h4 = rule_split_vowels(wl, h3, n);
        assert forall|j: int| 0 <= j < h4.len() implies #[trigger] is_buffer_byte(h4[j]) by {
            assert(is_buffer_byte(h3[j]));
        }
        lemma_long_consonants_marks(wl, h4, n, n - 1);
        let h5 = rule_long_consonants_upto(wl, h4, n, n - 1);
        if !ugly {
            let h6 = rule_no_ugly(wl, h5, n);
            assert forall|j: int| 0 <= j < h6.len() implies #[trigger] is_buffer_byte(h6[j]) by {
                assert(is_buffer_byte(h5[j]));
            }
        } else if n >= 3 {
            lemma_split_after_marks(wl, h5, n, n - 3);
        }
    }
}

pub(crate) fn lowercase_prefix(word: &[char], n: usize) -> (r: Vec<char>)
    requires
        n <= word@.len(),
    ensures
        r@ == lower_seq(word@, n as int),
{
    let mut r: Vec<char> = Vec::new();
    let mut i: usize = 0;
    while i < n
        invariant
            n <= word@.len(),
            i <= n,
            r@ == lower_seq(word@, i as int),
        decreases n - i,
    {
        r.push(simple_lower(word[i]));
        i += 1;
        proof {
            assert(r@ =~= lower_seq(word@, i as int));
        }
    }
    r
}

fn is_special_char(c: char) -> (r: bool)
    ensures
        r == is_special_before_hyphen(c),
{
    c == '/' || c == '.' || c == ':' || c == '&' || c == '%' || c == '\''
}

fn apply_rule_cv(wl: &Vec<char>, h: &mut [u8], n: usize, ugly: bool)
    requires
        2 <= n,
        wl@.len() == n,
        n <= old(h)@.len(),
    ensures
        final(h)@.len() == old(h)@.len(),
        final(h)@ == rule_cv(wl@, old(h)@, n as int, ugly),
{
    let mut i: usize = 0;
    while i < n && is_consonant(wl[i])
        invariant
            wl@.len() == n,
            i <= n,
            skip_consonants(wl@, 0) == skip_consonants(wl@, i as int),
            h@ == old(h)@,
        decreases n - i,
    {
        i += 1;
    }
    let ghost s = i as int;
    assert(s == skip_consonants(wl@, 0));
    while i <= n - 2
        invariant
            2 <= n,
            wl@.len() == n,
            n <= h@.len(),
            h@.len() == old(h)@.len(),
            s == skip_consonants(wl@, 0),
            s <= i,
            forall|j: int|
                0 <= j < h@.len() ==> #[trigger] h@[j] == (if s <= j < i && j <= n - 2 && cv_break(
                    wl@,
                    j,
                    ugly,
                ) {
                    45u8
                } else {
                    old(h)@[j]
                }),
        decreases n - i,
    {
        if is_consonant(wl[i]) && is_vowel(wl[i + 1]) && i >= 1 && !is_special_char(wl[i - 1]) && (
        i <= 1 || ugly || wl[i - 2] != '\'') {
            h.set(i, 45u8);
        }
        i += 1;
    }
    assert(h@ =~= rule_cv(wl@, old(h)@, n as int, ugly));
}

fn apply_rule_apostrophe(wl: &Vec<char>, h: &mut [u8], n: usize)
    requires
        2 <= n,
        wl@.len() == n,
        n <= old(h)@.len(),
    ensures
        final(h)@.len() == old(h)@.len(),
        final(h)@ == rule_apostrophe(wl@, old(h)@, n as int),
{
    let mut i: usize = 1;
    while i < n - 1
        invariant
            2 <= n,
            wl@.len() == n,
            n <= h@.len(),
            h@.len() == old(h)@.len(),
            1 <= i <= n - 1,
            forall|j: int|
                0 <= j < h@.len() ==> #[trigger] h@[j] == (if 1 <= j < i && wl@[j] == '\''
                    && spec_is_vowel(wl@[j + 1]) {
                    61u8
                } else {
                    old(h)@[j]
                }),
        decreases n - i,
    {
        if wl[i] == '\'' && is_vowel(wl[i + 1]) {
            h.set(i, 61u8);
        }
        i += 1;
    }
    assert(h@ =~= rule_apostrophe(wl@, old(h)@, n as int));
}

fn apply_rule_long_vowels(wl: &Vec<char>, h: &mut [u8], n: usize)
    requires
        2 <= n,
        wl@.len() == n,
        n <= old(h)@.len(),
    ensures
        final(h)@.len() == old(h)@.len(),
        final(h)@ == rule_long_vowels_upto(wl@, old(h)@, n as int, n - 1),
{
    let mut i: usize = 1;
    while i < n - 1
        invariant
            2 <= n,
            wl@.len() == n,
            n <= h@.len(),
            h@.len() == old(h)@.len(),
            1 <= i <= n - 1,
            h@ == rule_long_vowels_upto(wl@, old(h)@, n as int, i as int),
        decreases n - i,
    {
        let ghost before = h@;
        if is_vowel(wl[i]) && wl[i] == wl[i + 1] {
            if is_vowel(wl[i - 1]) && is_good_hyphen_position(wl.as_slice(), h, i, n) {
                h.set(i, 45u8);
            }
            if i + 2 < n && is_good_hyphen_position(wl.as_slice(), h, i + 2, n) {
                h.set(i + 2, 45u8);
            }
        }
        assert(h@ == long_vowel_step(wl@, before, i as int, n as int));
        i += 1;
    }
}

fn apply_rule_split_vowels(wl: &Vec<char>, h: &mut [u8], n: usize)
    requires
        2 <= n,
        wl@.len() == n,
        n <= old(h)@.len(),
    ensures
        final(h)@.len() == old(h)@.len(),
        final(h)@ == rule_split_vowels(wl@, old(h)@, n as int),
{
    let mut i: usize = 0;
    while i < n - 1
        invariant
            2 <= n,
            wl@.len() == n,
            n <= h@.len(),
            h@.len() == old(h)@.len(),
            i <= n - 1,
            forall|j: int|
                0 <= j < h@.len() ==> #[trigger] h@[j] == (if 1 <= j <= i && old(h)@[j] == 32u8
                    && spec_is_vowel(wl@[j - 1]) && spec_is_vowel(wl@[j]) && is_split_vowel_pair(
                    wl@[j - 1],
                    wl@[j],
                ) {
                    45u8
                } else {
                    old(h)@[j]
                }),
        decreases n - i,
    {
        if h[i + 1] == 32u8 && is_vowel(wl[i]) && is_vowel(wl[i + 1]) && split_vowel_pair(
            wl[i],
            wl[i + 1],
        ) {
            h.set(i + 1, 45u8);
        }
        i += 1;
    }
    assert(h@ =~= rule_split_vowels(wl@, old(h)@, n as int));
}

fn long_consonant(c: usize) -> (r: Vec<char>)
    requires
        c < 5,
    ensures
        r@ == long_consonants()[c as int],
{
    if c == 0 {
        vec!['\u{0161}', 't', '\u{0161}']
    } else if c == 1 {
        vec!['s', 'h', 't', 's', 'h']
    } else if c == 2 {
        vec!['t', 's', 'h']
    } else if c == 3 {
        vec!['t', '\u{0161}']
    } else {
        vec!['z', 'h']
    }
}

fn apply_cluster(wl: &Vec<char>, h: &mut [u8], i: usize, n: usize, lc: &Vec<char>)
    requires
        1 <= i < n - 1,
        wl@.len() == n,
        n <= old(h)@.len(),
        1 <= lc@.len(),
    ensures
        final(h)@.len() == old(h)@.len(),
        final(h)@ == cluster_step(wl@, old(h)@, i as int, n as int, lc@),
{
    let clen = lc.len();
    if clen > n || i > n - clen {
        return ;
    }
    let mut m: usize = 0;
    while m < clen
        invariant
            m <= clen,
            clen == lc@.len(),
            i + clen <= n,
            wl@.len() == n,
            h@ == old(h)@,
            forall|q: int| 0 <= q < m ==> wl@[i + q] == lc@[q],
        decreases clen - m,
    {
        if wl[i + m] != lc[m] {
            proof {
                assert(wl@.subrange(i as int, i + clen)[m as int] != lc@[m as int]);
            }
            return ;
        }
        m += 1;
    }
    assert(wl@.subrange(i as int, i + clen) =~= lc@);
    let hi = if i + clen < n - 1 {
        i + clen
    } else {
        n - 1
    };
    let mut k = i + 1;
    let mut moved = false;
    while k <= hi
        invariant
            1 <= i < hi < n,
            n <= h@.len(),
            h@.len() == old(h)@.len(),
            i + 1 <= k <= hi + 1,
            moved == exists|q: int| i < q < k && old(h)@[q] == 45u8,
            forall|j: int|
                0 <= j < h@.len() ==> #[trigger] h@[j] == (if i < j < k && old(h)@[j] == 45u8 {
                    32u8
                } else if j == i && moved {
                    45u8
                } else {
                    old(h)@[j]
                }),
        decreases hi + 1 - k,
    {
        if h[k] == 45u8 {
            h.set(k, 32u8);
            h.set(i, 45u8);
            moved = true;
        }
        k += 1;
    }
    proof {
        assert(hi == cluster_reach(i as int, clen as int, n as int));
        if moved {
            assert(h@ =~= cluster_step(wl@, old(h)@, i as int, n as int, lc@));
        } else {
            assert(h@ =~= old(h)@);
        }
    }
}

fn apply_rule_long_consonants(wl: &Vec<char>, h: &mut [u8], n: usize)
    requires
        2 <= n,
        wl@.len() == n,
        n <= old(h)@.len(),
    ensures
        final(h)@.len() == old(h)@.len(),
        final(h)@ == rule_long_consonants_upto(wl@, old(h)@, n as int, n - 1),
{
    let mut i: usize = 1;
    while i < n - 1
        invariant
            2 <= n,
            wl@.len() == n,
            n <= h@.len(),
            h@.len() == old(h)@.len(),
            1 <= i <= n - 1,
            h@ == rule_long_consonants_upto(wl@, old(h)@, n as int, i as int),
        decreases n - i,
    {
        let ghost before = h@;
        let mut c: usize = 0;
        while c < 5
            invariant
                2 <= n,
                1 <= i < n - 1,
                wl@.len() == n,
                n <= h@.len(),
                h@.len() == old(h)@.len(),
                c <= 5,
                h@ == clusters_step(wl@, before, i as int, n as int, c as int),
            decreases 5 - c,
        {
            let lc = long_consonant(c);
            apply_cluster(wl, h, i, n, &lc);
            c += 1;
        }
        i += 1;
    }
}

fn apply_rule_no_ugly(wl: &Vec<char>, h: &mut [u8], n: usize)
    requires
        2 <= n,
        wl@.len() == n,
        n <= old(h)@.len(),
    ensures
        final(h)@.len() == old(h)@.len(),
        final(h)@ == rule_no_ugly(wl@, old(h)@, n as int),
{
    h.set(1, 32u8);
    h.set(n - 1, 32u8);
    let mut i: usize = 0;
    while i < n - 1
        invariant
            2 <= n,
            wl@.len() == n,
            n <= h@.len(),
            h@.len() == old(h)@.len(),
            i <= n - 1,
            forall|j: int|
                0 <= j < h@.len() ==> #[trigger] h@[j] == (if j == 1 || j == n - 1 || (1 <= j <= i
                    && spec_is_vowel(wl@[j - 1]) && spec_is_vowel(wl@[j])) {
                    32u8
                } else {
                    old(h)@[j]
                }),
        decreases n - i,
    {
        if is_vowel(wl[i]) && is_vowel(wl[i + 1]) {
            h.set(i + 1, 32u8);
        }
        i += 1;
    }
    assert(h@ =~= rule_no_ugly(wl@, old(h)@, n as int));
}

fn apply_rule_split_after(wl: &Vec<char>, h: &mut [u8], n: usize)
    requires
        3 <= n,
        wl@.len() == n,
        n <= old(h)@.len(),
    ensures
        final(h)@.len() == old(h)@.len(),
        final(h)@ == rule_split_after_upto(wl@, old(h)@, n as int, n - 3),
{
    let mut i: usize = 0;
    while i < n - 3
        invariant
            3 <= n,
            wl@.len() == n,
            n <= h@.len(),
            h@.len() == old(h)@.len(),
            i <= n - 3,
            h@ == rule_split_after_upto(wl@, old(h)@, n as int, i as int),
        decreases n - i,
    {
        let ghost before = h@;
        if h[i + 1] != 45u8 && ((wl[i] == 'i' && wl[i + 1] == 'e') || (wl[i] == 'a' && wl[i + 1]
            == 'i')) && is_vowel(wl[i + 2]) && is_good_hyphen_position(wl.as_slice(), h, i + 2, n) {
            h.set(i + 2, 45u8);
        }
        assert(h@ == split_after_step(wl@, before, i as int, n as int));
        i += 1;
    }
}

/// Apply the Finnish syllable rules to the first `nchars` positions of a
/// hyphenation buffer (see `spec_rule_hyphenation`); the rest of the
/// buffer is left as it is.
pub fn rule_hyphenation(
    word: &[char],
    hyphenation_points: &mut [u8],
    nchars: usize,
    ugly_hyphenation: bool,
)
    requires
        nchars <= word@.len(),
        nchars <= old(hyphenation_points)@.len(),
    ensures
        final(hyphenation_points)@.len() == old(hyphenation_points)@.len(),
        final(hyphenation_points)@ == spec_rule_hyphenation(
            word@,
            old(hyphenation_points)@,
            nchars as int,
            ugly_hyphenation,
        ),
{
    if !allow_rule_hyphenation(word, nchars, ugly_hyphenation) {
        return ;
    }
    if hyphenation_points[0] == 88u8 {
        return ;
    }
    let wl = lowercase_prefix(word, nchars);
    apply_rule_cv(&wl, hyphenation_points, nchars, ugly_hyphenation);
    apply_rule_apostrophe(&wl, hyphenation_points, nchars);
    apply_rule_long_vowels(&wl, hyphenation_points, nchars);
    apply_rule_split_vowels(&wl, hyphenation_points, nchars);
    apply_rule_long_consonants(&wl, hyphenation_points, nchars);
    if !ugly_hyphenation {
        apply_rule_no_ugly(&wl, hyphenation_points, nchars);
    } else if nchars >= 3 {
        apply_rule_split_after(&wl, hyphenation_points, nchars);
    }
}

} // verus!
