//! Finnish-specific adjustments around a base speller: soft hyphens,
//! optional hyphens, vowel-consonant overlap, free suffix parts and
//! ambiguous compound boundaries.

use vstd::prelude::*;
use vstd::slice::slice_subrange;
use crate::analysis::{Analysis, ATTR_MALAGA_VAPAA_JALKIOSA, ATTR_STRUCTURE};
use crate::character::{is_consonant, is_vowel, simple_lower, lowercase_of, spec_is_vowel, spec_is_consonant};
use crate::enums::{spell_rank, spell_result_rank, SpellResult};
use crate::morphology::{analyses_view, analyzer_answer, ask_analyzer, Analyzer};
use crate::speller::adapter::better_result;
use crate::speller::utils::{match_word_and_analysis, spec_match_word_and_analysis};
use crate::speller::{ask_speller, speller_answer, Speller};
use crate::text::{str_eq, str_to_chars, SOFT_HYPHEN, without_soft_hyphens, lemma_without_soft_hyphens};

verus! {

/// Options controlling Finnish spelling tweaks.
#[derive(Debug, Clone, Default)]
pub struct FinnishSpellerOptions {
    /// Accept extra hyphens in compound words.
    pub accept_extra_hyphens: bool,
}

/// A soft hyphen at the start, at the end, or right after another one.
pub open spec fn is_misplaced_soft_hyphen(w: Seq<char>, i: int) -> bool {
    w[i] == SOFT_HYPHEN && (i == 0 || i + 1 == w.len() || w[i - 1] == SOFT_HYPHEN)
}

pub open spec fn has_misplaced_soft_hyphen(w: Seq<char>) -> bool {
    exists|i: int| 0 <= i < w.len() && #[trigger] is_misplaced_soft_hyphen(w, i)
}

/// Removes the soft hyphens from the first `wlen` characters; `None` when
/// one of them is misplaced (see `is_misplaced_soft_hyphen`).
pub fn remove_soft_hyphens(word: &[char], wlen: usize) -> (r: Option<Vec<char>>)
    requires
        wlen <= word@.len(),
    ensures
        r is None <==> has_misplaced_soft_hyphen(word@.take(wlen as int)),
        r matches Some(b) ==> b@ == without_soft_hyphens(word@.take(wlen as int)),
{
    let ghost w = word@.take(wlen as int);
    let mut buffer: Vec<char> = Vec::new();
    let mut i: usize = 0;
    while i < wlen
        invariant
            wlen <= word@.len(),
            w == word@.take(wlen as int),
            i <= wlen,
            buffer@ == without_soft_hyphens(w.take(i as int)),
            forall|k: int| 0 <= k < i ==> !#[trigger] is_misplaced_soft_hyphen(w, k),
        decreases wlen - i,
    {
        assert(w.take(i + 1).drop_last() =~= w.take(i as int));
        let ch = word[i];
        if ch != SOFT_HYPHEN {
            buffer.push(ch);
        } else {
            if i == 0 || i + 1 == wlen || word[i - 1] == SOFT_HYPHEN {
                assert(is_misplaced_soft_hyphen(w, i as int));
                return None;
            }
        }
        i += 1;
    }
    assert(w.take(wlen as int) =~= w);
    Some(buffer)
}

/// Whether a word (the first `wlen` characters) holds a soft hyphen.
pub fn contains_soft_hyphen(word: &[char], wlen: usize) -> (r: bool)
    requires
        wlen <= word@.len(),
    ensures
        r == exists|i: int| 0 <= i < wlen && word@[i] == SOFT_HYPHEN,
{
    let mut i: usize = 0;
    while i < wlen
        invariant
            wlen <= word@.len(),
            i <= wlen,
            forall|k: int| 0 <= k < i ==> word@[k] != SOFT_HYPHEN,
        decreases wlen - i,
    {
        if word[i] == SOFT_HYPHEN {
            return true;
        }
        i += 1;
    }
    false
}

/// The first index in `from..to` that holds `c`, if any.
pub fn find_char(word: &[char], c: char, from: usize, to: usize) -> (r: Option<usize>)
    requires
        to <= word@.len(),
    ensures
        r matches Some(p) ==> from <= p < to && word@[p as int] == c && forall|k: int|
            from <= k < p ==> word@[k] != c,
        r is None ==> forall|k: int| from <= k < to ==> word@[k] != c,
{
    let mut i = from;
    while i < to
        invariant
            to <= word@.len(),
            from <= i || to <= i,
            forall|k: int| from <= k < i && k < to ==> word@[k] != c,
        decreases to - i,
    {
        if word[i] == c {
            return Some(i);
        }
        i += 1;
    }
    None
}

/// The last index in `from..to` that holds `c`, if any.
pub fn rfind_char(word: &[char], c: char, from: usize, to: usize) -> (r: Option<usize>)
    requires
        to <= word@.len(),
    ensures
        r matches Some(p) ==> from <= p < to && word@[p as int] == c && forall|k: int|
            p < k < to ==> word@[k] != c,
        r is None ==> forall|k: int| from <= k < to ==> word@[k] != c,
{
    let mut i = to;
    while i > from
        invariant
            to <= word@.len(),
            i <= to,
            forall|k: int| i <= k < to ==> word@[k] != c,
        decreases i,
    {
        if word[i - 1] == c {
            return Some(i - 1);
        }
        i -= 1;
    }
    None
}

/// The word `w` (first `wlen` characters) with the character at `p` left out.
pub fn remove_char_at(word: &[char], p: usize, wlen: usize) -> (r: Vec<char>)
    requires
        p < wlen <= word@.len(),
    ensures
        r@ == word@.take(p as int) + word@.subrange(p + 1, wlen as int),
{
    let mut buffer: Vec<char> = Vec::new();
    let mut i: usize = 0;
    while i < wlen
        invariant
            p < wlen <= word@.len(),
            i <= wlen,
            buffer@ == (if i <= p {
                word@.take(i as int)
            } else {
                word@.take(p as int) + word@.subrange(p + 1, i as int)
            }),
        decreases wlen - i,
    {
        if i != p {
            buffer.push(word[i]);
        }
        i += 1;
        proof {
            if i <= p {
                assert(buffer@ =~= word@.take(i as int));
            } else {
                assert(buffer@ =~= word@.take(p as int) + word@.subrange(p + 1, i as int));
            }
        }
    }
    buffer
}

/// Whether some analysis marks the word as a free suffix part
/// (MALAGA_VAPAA_JALKIOSA is "true").
pub open spec fn spec_has_free_suffix(analyses: Seq<Map<Seq<char>, Seq<char>>>) -> bool {
    exists|i: int| 0 <= i < analyses.len() && (#[trigger] analyses[i]).contains_key(
        ATTR_MALAGA_VAPAA_JALKIOSA@,
    ) && analyses[i][ATTR_MALAGA_VAPAA_JALKIOSA@] == "true"@
}

/// Whether some analysis has MALAGA_VAPAA_JALKIOSA set to "true".
pub fn has_free_suffix(analyses: &Vec<Analysis>) -> (r: bool)
    ensures
        r == spec_has_free_suffix(analyses_view(analyses@)),
{
    let ghost av = analyses_view(analyses@);
    let mut i: usize = 0;
    while i < analyses.len()
        invariant
            i <= analyses.len(),
            av == analyses_view(analyses@),
            forall|k: int| 0 <= k < i ==> !((#[trigger] av[k]).contains_key(
                ATTR_MALAGA_VAPAA_JALKIOSA@,
            ) && av[k][ATTR_MALAGA_VAPAA_JALKIOSA@] == "true"@),
        decreases analyses.len() - i,
    {
        assert(av[i as int] == analyses@[i as int]@);
        match analyses[i].get(ATTR_MALAGA_VAPAA_JALKIOSA) {
            Some(v) => {
                if str_eq(v, "true") {
                    return true;
                }
            },
            None => {},
        }
        i += 1;
    }
    false
}

/// Index of the first non-`=` character at or after `j`.
pub open spec fn skip_boundaries(st: Seq<char>, j: int) -> int
    decreases st.len() - j,
{
    if 0 <= j < st.len() && st[j] == '=' {
        skip_boundaries(st, j + 1)
    } else {
        j
    }
}

/// Position in a STRUCTURE string right after its `k` first letters,
/// starting from `j`; `None` when it has fewer letters.
pub open spec fn after_letters(st: Seq<char>, k: nat, j: int) -> Option<int>
    decreases k,
{
    if k == 0 {
        Some(j)
    } else if skip_boundaries(st, j) >= st.len() {
        None
    } else {
        after_letters(st, (k - 1) as nat, skip_boundaries(st, j) + 1)
    }
}

/// How an analysis places a compound boundary after `k` letters:
/// `Some(true)` with a boundary there, `Some(false)` without,
/// `None` when the analysis has no STRUCTURE or too few letters.
pub open spec fn boundary_class(a: Map<Seq<char>, Seq<char>>, k: nat) -> Option<bool> {
    if !a.contains_key(ATTR_STRUCTURE@) {
        None
    } else {
        let st = a[ATTR_STRUCTURE@];
        match after_letters(st, k, 0) {
            Some(j) => Some(j < st.len() && st[j] == '='),
            None => None,
        }
    }
}

/// Best result over the analyses of one boundary class.
pub open spec fn best_with_boundary(
    buffer: Seq<char>,
    k: nat,
    analyses: Seq<Map<Seq<char>, Seq<char>>>,
    border: bool,
) -> SpellResult
    decreases analyses.len(),
{
    if analyses.len() == 0 {
        SpellResult::Failed
    } else {
        let prev = best_with_boundary(buffer, k, analyses.drop_last(), border);
        let a = analyses.last();
        if boundary_class(a, k) == Some(border) {
            better_result(prev, spec_match_word_and_analysis(buffer, a[ATTR_STRUCTURE@]))
        } else {
            prev
        }
    }
}

/// The outcome of the ambiguous-compound rule: accepted (with the result of
/// the analyses that have a boundary at the hyphen) only when analyses both
/// with and without such a boundary exist and that result beats `result`.
pub open spec fn spec_ambiguous_compound(
    buffer: Seq<char>,
    k: nat,
    analyses: Seq<Map<Seq<char>, Seq<char>>>,
    result: SpellResult,
) -> SpellResult {
    let with = best_with_boundary(buffer, k, analyses, true);
    let without = best_with_boundary(buffer, k, analyses, false);
    if analyses.len() > 0 && with != SpellResult::Failed && without != SpellResult::Failed && (
    result == SpellResult::Failed || spell_rank(result) > spell_rank(with)) {
        with
    } else {
        result
    }
}

/// Walks a STRUCTURE over `k` letters from the start, returning the
/// position after them, or `None` if it runs out.
fn walk_letters(st: &Vec<char>, k: usize) -> (r: Option<usize>)
    ensures
        r matches Some(j) ==> after_letters(st@, k as nat, 0) == Some(j as int),
        r is None ==> after_letters(st@, k as nat, 0) is None,
{
    let mut j: usize = 0;
    let mut i: usize = 0;
    while i < k
        invariant
            i <= k,
            j <= st@.len(),
            after_letters(st@, k as nat, 0) == after_letters(st@, (k - i) as nat, j as int),
        decreases k - i,
    {
        let ghost j0 = j;
        while j < st.len() && st[j] == '='
            invariant
                j0 <= j <= st@.len(),
                skip_boundaries(st@, j0 as int) == skip_boundaries(st@, j as int),
            decreases st.len() - j,
        {
            j += 1;
        }
        if j >= st.len() {
            return None;
        }
        j += 1;
        i += 1;
    }
    Some(j)
}

/// Applies the ambiguous-compound rule to the analyses of the word without
/// its hyphen; `k` is the number of characters before the hyphen.
pub fn ambiguous_compound(buffer: &[char], k: usize, analyses: &Vec<Analysis>, result: SpellResult) -> (r: SpellResult)
    ensures
        r == spec_ambiguous_compound(buffer@, k as nat, analyses_view(analyses@), result),
{
    let ghost av = analyses_view(analyses@);
    if analyses.len() == 0 {
        return result;
    }
    let mut with = SpellResult::Failed;
    let mut without = SpellResult::Failed;
    let mut n: usize = 0;
    while n < analyses.len()
        invariant
            n <= analyses.len(),
            av == analyses_view(analyses@),
            with == best_with_boundary(buffer@, k as nat, av.take(n as int), true),
            without == best_with_boundary(buffer@, k as nat, av.take(n as int), false),
        decreases analyses.len() - n,
    {
        assert(av.take(n + 1).drop_last() =~= av.take(n as int));
        assert(av.take(n + 1).last() == av[n as int]);
        assert(av[n as int] == analyses@[n as int]@);
        match analyses[n].get(ATTR_STRUCTURE) {
            Some(structure) => {
                let st = str_to_chars(structure);
                assert(st@ == av[n as int][ATTR_STRUCTURE@]);
                match walk_letters(&st, k) {
                    Some(j) => {
                        let spres = match_word_and_analysis(buffer, structure);
                        assert(after_letters(st@, k as nat, 0) == Some(j as int));
                        assert(boundary_class(av[n as int], k as nat) == Some(j < st@.len() && st@[j as int] == '='));
                        if j < st.len() && st[j] == '=' {
                            if spell_result_rank(with) == 3 || spell_result_rank(with)
                                > spell_result_rank(spres) {
                                with = spres;
                            }
                        } else if spell_result_rank(without) == 3 || spell_result_rank(without)
                            > spell_result_rank(spres) {
                            without = spres;
                        }
                    },
                    None => {},
                }
            },
            None => {},
        }
        n += 1;
    }
    assert(av.take(analyses.len() as int) =~= av);
    if spell_result_rank(with) != 3 && spell_result_rank(without) != 3 && (spell_result_rank(
        result,
    ) == 3 || spell_result_rank(result) > spell_result_rank(with)) {
        return with;
    }
    result
}

/// The first hyphen at positions `k` and on, up to the last character
/// (which is not looked at).
pub open spec fn first_hyphen_from(w: Seq<char>, k: int) -> Option<int>
    decreases w.len() - k,
{
    if k >= w.len() - 1 {
        None
    } else if w[k] == '-' {
        Some(k)
    } else {
        first_hyphen_from(w, k + 1)
    }
}

/// The last hyphen before position `k`, from position 1 on.
pub open spec fn last_hyphen_before(w: Seq<char>, k: int) -> Option<int>
    decreases k,
{
    if k <= 1 {
        None
    } else if w[k - 1] == '-' {
        Some(k - 1)
    } else {
        last_hyphen_before(w, k - 1)
    }
}

/// The first hyphen strictly inside `w`.
pub open spec fn first_inner_hyphen(w: Seq<char>) -> Option<int> {
    first_hyphen_from(w, 1)
}

/// The last hyphen strictly inside `w`.
pub open spec fn last_inner_hyphen(w: Seq<char>) -> Option<int> {
    last_hyphen_before(w, w.len() - 1)
}

/// `w` without its character at `h`.
pub open spec fn without_at(w: Seq<char>, h: int) -> Seq<char> {
    w.take(h) + w.skip(h + 1)
}

/// Whether the optional-hyphen rule applies at the hyphen `h`: it is on,
/// the part before the hyphen is longer than one letter, and no second
/// hyphen follows.
pub open spec fn tries_extra_hyphen(w: Seq<char>, opts: FinnishSpellerOptions, h: int) -> bool {
    opts.accept_extra_hyphens && h > 1 && without_at(w, h)[h] != '-'
}

/// Whether the letters around the hyphen `h` overlap: a vowel and a
/// consonant before it, repeated right after it ("pop-opisto").
pub open spec fn overlapping_hyphen(w: Seq<char>, h: int) -> bool {
    &&& h >= 2
    &&& w.len() - h >= 3
    &&& spec_is_vowel(lowercase_of(w[h - 2]))
    &&& spec_is_consonant(lowercase_of(w[h - 1]))
    &&& lowercase_of(w[h + 1]) == lowercase_of(w[h - 2])
    &&& lowercase_of(w[h + 2]) == lowercase_of(w[h - 1])
}

/// Whether the hyphen rules come into play: the base speller did not
/// accept the word, it is longer than three letters and has a hyphen
/// inside.
pub open spec fn hyphen_rules_apply(w: Seq<char>, r0: SpellResult) -> bool {
    r0 != SpellResult::Correct && w.len() > 3 && first_inner_hyphen(w) is Some
}

/// Whether the optional-hyphen rule asks about the word without its first
/// inner hyphen.
pub open spec fn asks_without_hyphen(w: Seq<char>, opts: FinnishSpellerOptions, r0: SpellResult) -> bool {
    hyphen_rules_apply(w, r0) && tries_extra_hyphen(w, opts, first_inner_hyphen(w)->0)
}

/// Whether the free-suffix rule asks about the part before the last inner
/// hyphen: the earlier rules did not decide.
pub open spec fn asks_leading_part(
    w: Seq<char>,
    opts: FinnishSpellerOptions,
    r0: SpellResult,
    rec: SpellResult,
    vc: SpellResult,
) -> bool {
    let h = first_inner_hyphen(w)->0;
    &&& hyphen_rules_apply(w, r0)
    &&& !(tries_extra_hyphen(w, opts, h) && rec == SpellResult::Correct)
    &&& !(overlapping_hyphen(w, h) && vc != SpellResult::Failed && (r0 == SpellResult::Failed
        || spell_rank(r0) > spell_rank(vc)))
    &&& last_inner_hyphen(w) is Some
}

/// The result for a word without soft hyphens, from the answers: `r0` of
/// the base speller for the word, `rec` for the word without its first
/// inner hyphen (optional hyphens), `vc` of the base speller for that word
/// (overlapping letters), `lead` for the part before the last inner hyphen,
/// `ta` the analyses of the part after it (free suffix parts), and `an`
/// the analyses of the word without its first inner hyphen (ambiguous
/// compounds).
pub open spec fn without_shy_result(
    w: Seq<char>,
    opts: FinnishSpellerOptions,
    r0: SpellResult,
    rec: SpellResult,
    vc: SpellResult,
    lead: SpellResult,
    ta: Seq<Map<Seq<char>, Seq<char>>>,
    an: Seq<Map<Seq<char>, Seq<char>>>,
) -> SpellResult {
    if !hyphen_rules_apply(w, r0) {
        r0
    } else {
        let h = first_inner_hyphen(w)->0;
        if tries_extra_hyphen(w, opts, h) && rec == SpellResult::Correct {
            rec
        } else if overlapping_hyphen(w, h) && vc != SpellResult::Failed && (r0
            == SpellResult::Failed || spell_rank(r0) > spell_rank(vc)) {
            vc
        } else if last_inner_hyphen(w) is Some && lead != SpellResult::Failed
            && spec_has_free_suffix(ta) {
            lead
        } else {
            spec_ambiguous_compound(without_at(w, h), h as nat, an, r0)
        }
    }
}

/// Whether the letters around the first inner hyphen overlap, so that the
/// base speller is asked about the word without that hyphen: the earlier
/// rules did not decide.
pub open spec fn asks_overlap(w: Seq<char>, opts: FinnishSpellerOptions, r0: SpellResult, rec: SpellResult) -> bool {
    let h = first_inner_hyphen(w)->0;
    &&& hyphen_rules_apply(w, r0)
    &&& !(tries_extra_hyphen(w, opts, h) && rec == SpellResult::Correct)
    &&& overlapping_hyphen(w, h)
}

/// Whether the analyzer is asked about the part after the last inner
/// hyphen: the part before it was asked about and not failed.
pub open spec fn asks_trailing_part(
    w: Seq<char>,
    opts: FinnishSpellerOptions,
    r0: SpellResult,
    rec: SpellResult,
    vc: SpellResult,
    lead: SpellResult,
) -> bool {
    asks_leading_part(w, opts, r0, rec, vc) && lead != SpellResult::Failed
}

/// Whether the analyzer is asked about the word without its first inner
/// hyphen (ambiguous compounds): no earlier rule decided.
pub open spec fn asks_compound(
    w: Seq<char>,
    opts: FinnishSpellerOptions,
    r0: SpellResult,
    rec: SpellResult,
    vc: SpellResult,
    lead: SpellResult,
    ta: Seq<Map<Seq<char>, Seq<char>>>,
) -> bool {
    let h = first_inner_hyphen(w)->0;
    &&& hyphen_rules_apply(w, r0)
    &&& !(tries_extra_hyphen(w, opts, h) && rec == SpellResult::Correct)
    &&& !(overlapping_hyphen(w, h) && vc != SpellResult::Failed && (r0 == SpellResult::Failed
        || spell_rank(r0) > spell_rank(vc)))
    &&& !(last_inner_hyphen(w) is Some && lead != SpellResult::Failed && spec_has_free_suffix(ta))
}

/// Whether `r` is a result of the Finnish tweaks over the base speller
/// `inner` and the analyzer `analyzer` for the word `w`, which holds no
/// soft hyphens: it follows by `without_shy_result` from answers that they
/// may give to the questions asked, and the results for shorter words are
/// themselves such results.
pub open spec fn without_shy_spells<S: Speller, A: Analyzer>(
    inner: &S,
    analyzer: &A,
    w: Seq<char>,
    opts: FinnishSpellerOptions,
    r: SpellResult,
) -> bool
    decreases w.len(), 0int,
{
    exists|
        r0: SpellResult,
        rec: SpellResult,
        vc: SpellResult,
        lead: SpellResult,
        ta: Seq<Analysis>,
        an: Seq<Analysis>,
    |
        #![trigger without_shy_result(w, opts, r0, rec, vc, lead, analyses_view(ta), analyses_view(an))]
        {
            let h = first_inner_hyphen(w)->0;
            let l = last_inner_hyphen(w)->0;
            &&& r == without_shy_result(w, opts, r0, rec, vc, lead, analyses_view(ta), analyses_view(an))
            &&& speller_answer(inner, w, r0)
            &&& (asks_without_hyphen(w, opts, r0) && 1 <= h < w.len())
                ==> without_shy_spells(inner, analyzer, without_at(w, h), opts, rec)
            &&& (asks_overlap(w, opts, r0, rec) && 1 <= h < w.len())
                ==> speller_answer(inner, without_at(w, h), vc)
            &&& (asks_leading_part(w, opts, r0, rec, vc) && 1 <= l < w.len())
                ==> checked_spells(inner, analyzer, w.take(l), opts, lead)
            &&& (asks_trailing_part(w, opts, r0, rec, vc, lead) && 1 <= l < w.len())
                ==> analyzer_answer(analyzer, w.subrange(l + 1, w.len() as int), ta)
            &&& (asks_compound(w, opts, r0, rec, vc, lead, analyses_view(ta)) && 1 <= h < w.len())
                ==> analyzer_answer(analyzer, without_at(w, h), an)
        }
}

/// Whether `r` is a result of the Finnish tweaks over `inner` and
/// `analyzer` for the word `w`: a misplaced soft hyphen fails the word;
/// other soft hyphens are removed.
pub open spec fn checked_spells<S: Speller, A: Analyzer>(
    inner: &S,
    analyzer: &A,
    w: Seq<char>,
    opts: FinnishSpellerOptions,
    r: SpellResult,
) -> bool
    decreases w.len(), 1int,
{
    if exists|i: int| 0 <= i < w.len() && w[i] == SOFT_HYPHEN {
        if has_misplaced_soft_hyphen(w) {
            r == SpellResult::Failed
        } else {
            proof {
                lemma_without_soft_hyphens(w);
            }
            without_shy_spells(inner, analyzer, without_soft_hyphens(w), opts, r)
        }
    } else {
        without_shy_spells(inner, analyzer, w, opts, r)
    }
}

proof fn lemma_first_hyphen_found(w: Seq<char>, k: int, p: int)
    requires
        k <= p < w.len() - 1,
        w[p] == '-',
        forall|q: int| k <= q < p ==> w[q] != '-',
    ensures
        first_hyphen_from(w, k) == Some(p),
    decreases p - k,
{
    if k < p {
        lemma_first_hyphen_found(w, k + 1, p);
    }
}

proof fn lemma_first_hyphen_none(w: Seq<char>, k: int)
    requires
        forall|q: int| k <= q < w.len() - 1 ==> w[q] != '-',
    ensures
        first_hyphen_from(w, k) is None,
    decreases w.len() - k,
{
    if k < w.len() - 1 {
        lemma_first_hyphen_none(w, k + 1);
    }
}

proof fn lemma_last_hyphen_found(w: Seq<char>, k: int, p: int)
    requires
        1 <= p < k,
        w[p] == '-',
        forall|q: int| p < q < k ==> w[q] != '-',
    ensures
        last_hyphen_before(w, k) == Some(p),
    decreases k - p,
{
    if p < k - 1 {
        lemma_last_hyphen_found(w, k - 1, p);
    }
}

/// Wraps a base speller with Finnish-specific adjustments.
pub struct FinnishSpellerTweaksWrapper<'a, S: Speller, A: Analyzer> {
    inner: &'a S,
    analyzer: &'a A,
    options: FinnishSpellerOptions,
}

impl<'a, S: Speller, A: Analyzer> FinnishSpellerTweaksWrapper<'a, S, A> {
    /// Create a new Finnish speller tweaks wrapper.
    pub fn new(inner: &'a S, analyzer: &'a A, options: FinnishSpellerOptions) -> (r: Self)
        ensures
            r.inner() == inner,
            r.analyzer() == analyzer,
            r.options() == options,
    {
        FinnishSpellerTweaksWrapper { inner, analyzer, options }
    }

    pub closed spec fn inner(&self) -> &'a S {
        self.inner
    }

    pub closed spec fn analyzer(&self) -> &'a A {
        self.analyzer
    }

    pub closed spec fn options(&self) -> FinnishSpellerOptions {
        self.options
    }

    /// Spell-check a word that holds no soft hyphens: the base speller's
    /// answer, unless the hyphen rules (optional hyphens, overlapping
    /// letters, free suffix parts, ambiguous compounds) give a better one.
    fn spell_without_soft_hyphen(&self, word: &[char], wlen: usize) -> (r: SpellResult)
        requires
            wlen <= word@.len(),
        ensures
            without_shy_spells(self.inner(), self.analyzer(), word@.take(wlen as int), self.options(), r),
        decreases wlen, 0int,
    {
        let ghost w = word@.take(wlen as int);
        let ghost opts = self.options();
        let ghost none: Seq<Analysis> = Seq::empty();
        let result = ask_speller(self.inner, word, wlen);
        if spell_result_rank(result) == 0 || wlen <= 3 {
            proof {
                assert(result == without_shy_result(w, opts, result, result, result, result, analyses_view(none), analyses_view(none)));
            }
            return result;
        }
        let hyphen_idx = match find_char(word, '-', 1, wlen - 1) {
            Some(p) => p,
            None => {
                proof {
                    lemma_first_hyphen_none(w, 1);
                    assert(result == without_shy_result(w, opts, result, result, result, result, analyses_view(none), analyses_view(none)));
                }
                return result;
            },
        };
        let leading_len = hyphen_idx;
        proof {
            lemma_first_hyphen_found(w, 1, hyphen_idx as int);
        }
        let buffer = remove_char_at(word, hyphen_idx, wlen);
        proof {
            assert(buffer@ =~= without_at(w, hyphen_idx as int));
            assert(buffer@.take(buffer@.len() as int) =~= buffer@);
        }
        let ghost mut rec = SpellResult::Failed;
        // Optional hyphens.
        if self.options.accept_extra_hyphens && leading_len > 1 && buffer[leading_len] != '-' {
            let spres = self.spell_without_soft_hyphen(&buffer, buffer.len());
            proof {
                rec = spres;
            }
            if spell_result_rank(spres) == 0 {
                proof {
                    assert(spres == without_shy_result(w, opts, result, rec, result, result, analyses_view(none), analyses_view(none)));
                }
                return spres;
            }
        }
        let ghost mut vc = SpellResult::Failed;
        // Vowel-consonant overlap: "pop-opisto".
        if leading_len >= 2 && wlen - leading_len >= 3 {
            let vc1 = simple_lower(word[leading_len - 2]);
            let vc2 = simple_lower(word[leading_len - 1]);
            if is_vowel(vc1) && is_consonant(vc2) && simple_lower(word[leading_len + 1]) == vc1
                && simple_lower(word[leading_len + 2]) == vc2 {
                let spres = ask_speller(self.inner, &buffer, buffer.len());
                proof {
                    vc = spres;
                }
                if spell_result_rank(spres) != 3 && (spell_result_rank(result) == 3
                    || spell_result_rank(result) > spell_result_rank(spres)) {
                    proof {
                        assert(spres == without_shy_result(w, opts, result, rec, vc, result, analyses_view(none), analyses_view(none)));
                    }
                    return spres;
                }
            }
        }
        let ghost mut lead = SpellResult::Failed;
        let ghost mut ta: Seq<Analysis> = Seq::empty();
        // Free suffix part: "ja-sana".
        match rfind_char(word, '-', 1, wlen - 1) {
            Some(i) => {
                proof {
                    lemma_last_hyphen_found(w, wlen - 1, i as int);
                }
                let leading = slice_subrange(word, 0, i);
                let leading_result = self.spell_checked(leading, i);
                proof {
                    assert(leading@.take(i as int) =~= w.take(i as int));
                    lead = leading_result;
                }
                if spell_result_rank(leading_result) != 3 {
                    let trailing = slice_subrange(word, i + 1, wlen);
                    let trailing_analyses = ask_analyzer(self.analyzer, trailing, trailing.len());
                    proof {
                        assert(trailing@.take(trailing@.len() as int) =~= w.subrange(i + 1, w.len() as int));
                        ta = trailing_analyses@;
                    }
                    if has_free_suffix(&trailing_analyses) {
                        proof {
                            assert(leading_result == without_shy_result(w, opts, result, rec, vc, lead, analyses_view(ta), analyses_view(none)));
                        }
                        return leading_result;
                    }
                }
            },
            None => {},
        }
        // Ambiguous compound: "syy-silta" / "syys-ilta".
        let analyses = ask_analyzer(self.analyzer, &buffer, buffer.len());
        let r = ambiguous_compound(&buffer, leading_len, &analyses, result);
        proof {
            assert(r == without_shy_result(w, opts, result, rec, vc, lead, analyses_view(ta), analyses_view(analyses@)));
        }
        r
    }

    /// Spell-check a word, first validating and removing soft hyphens.
    /// A misplaced soft hyphen (at the start, at the end, or doubled) makes
    /// the word `Failed`.
    pub fn spell_checked(&self, word: &[char], wlen: usize) -> (r: SpellResult)
        requires
            wlen <= word@.len(),
        ensures
            has_misplaced_soft_hyphen(word@.take(wlen as int)) ==> r == SpellResult::Failed,
            checked_spells(self.inner(), self.analyzer(), word@.take(wlen as int), self.options(), r),
        decreases wlen, 1int,
    {
        let ghost w = word@.take(wlen as int);
        if contains_soft_hyphen(word, wlen) {
            proof {
                let i = choose|i: int| 0 <= i < wlen && word@[i] == SOFT_HYPHEN;
                assert(w[i] == word@[i]);
                assert(exists|i: int| 0 <= i < w.len() && w[i] == SOFT_HYPHEN);
            }
            match remove_soft_hyphens(word, wlen) {
                None => SpellResult::Failed,
                Some(buffer) => {
                    proof {
                        lemma_without_soft_hyphens(w);
                        assert(buffer@.take(buffer@.len() as int) =~= buffer@);
                    }
                    self.spell_without_soft_hyphen(&buffer, buffer.len())
                },
            }
        } else {
            proof {
                assert forall|i: int| 0 <= i < wlen implies !#[trigger] is_misplaced_soft_hyphen(
                    word@.take(wlen as int),
                    i,
                ) by {
                    assert(word@.take(wlen as int)[i] == word@[i]);
                }
                assert(!(exists|i: int| 0 <= i < w.len() && w[i] == SOFT_HYPHEN)) by {
                    if exists|i: int| 0 <= i < w.len() && w[i] == SOFT_HYPHEN {
                        let i = choose|i: int| 0 <= i < w.len() && w[i] == SOFT_HYPHEN;
                        assert(w[i] == word@[i]);
                    }
                }
            }
            self.spell_without_soft_hyphen(word, wlen)
        }
    }
}

impl<'a, S: Speller, A: Analyzer> Speller for FinnishSpellerTweaksWrapper<'a, S, A> {
    fn spell(&self, word: &[char], wlen: usize) -> (r: SpellResult)
        ensures
            checked_spells(self.inner(), self.analyzer(), word@.take(wlen as int), self.options(), r),
    {
        self.spell_checked(word, wlen)
    }
}

} // verus!
