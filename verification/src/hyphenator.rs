//! Finnish hyphenation: compound boundaries from morphological analysis
//! combined with syllable rules.

pub mod rules;
pub mod buffers;

use vstd::prelude::*;
use vstd::slice::slice_subrange;
use crate::analysis::Analysis;
use crate::morphology::{Analyzer, analyses_alike, analyses_view, analyzer_answer, ask_analyzer, single_readings};
use self::buffers::{
    spec_interpret_analysis, interpret_analysis, spec_remove_extra, remove_extra_hyphenations,
    buffers_view, lemma_prune_preserves, lemma_remove_extra_nonempty, prune, min_parts, count_parts,
    spec_intersect, spec_union, intersect_hyphenations, union_hyphenations, bytes_to_chars,
    bytes_to_string, lemma_intersection_within_union, lemma_interpret_analysis_marks, lemma_merge_marks,
};
use self::rules::{
    spec_allow_rule_hyphenation, allow_rule_hyphenation, spec_rule_hyphenation, rule_hyphenation,
    lowercase_prefix, lower_seq, buffer_marks, is_buffer_byte, lemma_rule_hyphenation_marks,
};



verus! {

/// Settings of the Finnish hyphenator.
#[derive(Debug, Clone, Copy)]
pub struct HyphenatorOptions {
    /// Also give breaks that are correct but look bad (a single letter at
    /// an edge, a split between vowels).
    pub ugly_hyphenation: bool,
    /// Hyphenate by the syllable rules words that the analyzer does not know.
    pub hyphenate_unknown: bool,
    /// Shortest word, and shortest compound part, that gets breaks.
    pub min_hyphenated_word_length: usize,
    /// When the word has no analysis, retry without a final dot.
    pub ignore_dot: bool,
}

impl Default for HyphenatorOptions {
    fn default() -> (r: Self)
        ensures
            r.ugly_hyphenation,
            r.hyphenate_unknown,
            r.min_hyphenated_word_length == 2,
            !r.ignore_dot,
    {
        HyphenatorOptions {
            ugly_hyphenation: true,
            hyphenate_unknown: true,
            min_hyphenated_word_length: 2,
            ignore_dot: false,
        }
    }
}

/// A hyphenator: gives, for each character of a word, whether a line may
/// break before it. In the result `' '` is no break, `'-'` a break before
/// the character, `'='` a break where the character (a hyphen) is replaced.
pub trait Hyphenator {
    /// The breaks on which every reading of the word agrees; one mark per
    /// character of the word.
    fn hyphenate(&self, word: &[char]) -> (r: String)
        ensures
            r@.len() == word@.len(),
    ;

    /// The breaks that some reading of the word allows; one mark per
    /// character of the word.
    fn all_possible_hyphen_positions(&self, word: &[char]) -> (r: String)
        ensures
            r@.len() == word@.len(),
    ;
}

/// Most analyses of one word that are taken into account.
pub const MAX_ANALYSIS_COUNT: usize = 31;

/// The buffer of a word that the analyzer does not know: every position
/// unbroken (`' '`) or, when unknown words are not hyphenated, forbidden
/// (`'X'`); where rule hyphenation is allowed, an inner `-` of the word
/// is an explicit break (`'='`).
pub open spec fn unknown_buffer(w: Seq<char>, opts: HyphenatorOptions) -> Seq<u8> {
    let len = w.len() as int;
    let fill = if opts.hyphenate_unknown {
        32u8
    } else {
        88u8
    };
    let allow = spec_allow_rule_hyphenation(w, len, opts.ugly_hyphenation);
    Seq::new(
        w.len(),
        |i: int|
            if allow && 1 <= i < len - 1 && w[i] == '-' {
                61u8
            } else {
                fill
            },
    )
}

/// The buffer that one analysis gives a word of `wlen` characters; with a
/// removed final dot the analysis covers one character less and the dot
/// gets no break.
pub open spec fn analysis_buffer(a: Map<Seq<char>, Seq<char>>, wlen: int, dot_removed: bool) -> Seq<u8> {
    let eff = if dot_removed {
        wlen - 1
    } else {
        wlen
    };
    let b = spec_interpret_analysis(a, Seq::new(wlen as nat, |i: int| 32u8), eff);
    if dot_removed {
        b.update(wlen - 1, 32u8)
    } else {
        b
    }
}

/// The analyses that are taken into account: at most the first
/// `MAX_ANALYSIS_COUNT`.
pub open spec fn counted_analyses(an: Seq<Map<Seq<char>, Seq<char>>>) -> Seq<Map<Seq<char>, Seq<char>>> {
    if an.len() > MAX_ANALYSIS_COUNT {
        an.take(MAX_ANALYSIS_COUNT as int)
    } else {
        an
    }
}

/// The buffers of a list of analyses.
pub open spec fn analysis_buffers(
    an: Seq<Map<Seq<char>, Seq<char>>>,
    wlen: int,
    dot_removed: bool,
) -> Seq<Seq<u8>> {
    an.map_values(|a: Map<Seq<char>, Seq<char>>| analysis_buffer(a, wlen, dot_removed))
}

/// Syllable rules within the compound parts of every buffer.
pub open spec fn compound_buffers(w: Seq<char>, hs: Seq<Seq<u8>>, len: int, opts: HyphenatorOptions) -> Seq<Seq<u8>> {
    hs.map_values(|h: Seq<u8>| spec_compound_hyphenation(w, h, len, opts))
}

/// One buffer per reading of the word, with compound boundaries marked and
/// needless compound readings removed.
pub open spec fn split_buffers(
    w: Seq<char>,
    an: Seq<Map<Seq<char>, Seq<char>>>,
    dot_removed: bool,
    opts: HyphenatorOptions,
) -> Seq<Seq<u8>> {
    let raw = if an.len() == 0 {
        seq![unknown_buffer(w, opts)]
    } else {
        analysis_buffers(counted_analyses(an), w.len() as int, dot_removed)
    };
    spec_remove_extra(raw, w.len() as int)
}

/// First position at or after `s` that is not an explicit break.
pub open spec fn skip_explicit(h: Seq<u8>, s: int, len: int) -> int
    decreases len - s,
{
    if s < len && h[s] == 61u8 {
        skip_explicit(h, s + 1, len)
    } else {
        s
    }
}

/// The syllable rules applied to the `n` characters from `start` on.
pub open spec fn segment_rules(w: Seq<char>, h: Seq<u8>, start: int, n: int, ugly: bool) -> Seq<u8> {
    h.take(start) + spec_rule_hyphenation(w.skip(start), h.skip(start), n, ugly)
}

/// The syllable rules applied to each compound part: a part runs from
/// `start` to the next boundary (a mark other than `' '` and `'X'`); parts
/// shorter than `minlen` are left alone; after an explicit break `'='` the
/// next part starts one position later.
pub open spec fn compound_from(
    w: Seq<char>,
    h: Seq<u8>,
    start: int,
    end: int,
    len: int,
    minlen: int,
    ugly: bool,
) -> Seq<u8>
    decreases len + 1 - end,
{
    if end < len && 0 <= end {
        if h[end] != 32u8 && h[end] != 88u8 {
            let h2 = if end >= start + minlen {
                segment_rules(w, h, start, end - start, ugly)
            } else {
                h
            };
            let ns = if h2[end] == 61u8 {
                end + 1
            } else {
                end
            };
            compound_from(w, h2, ns, ns + 1, len, minlen, ugly)
        } else {
            compound_from(w, h, start, end + 1, len, minlen, ugly)
        }
    } else if end == len && start < end && end >= start + minlen {
        segment_rules(w, h, start, end - start, ugly)
    } else {
        h
    }
}

/// Syllable rules within every compound part of the first `len`
/// positions, after the leading explicit breaks.
pub open spec fn spec_compound_hyphenation(w: Seq<char>, h: Seq<u8>, len: int, opts: HyphenatorOptions) -> Seq<u8> {
    let s = skip_explicit(h, 0, len);
    compound_from(w, h, s, s + 1, len, opts.min_hyphenated_word_length as int, opts.ugly_hyphenation)
}

/// The hyphenation of a word from the analyses used for it: words shorter
/// than the minimum get no breaks; otherwise every reading is split into
/// compound parts and syllables, and the readings are intersected (or
/// united).
pub open spec fn spec_hyphenation(
    w: Seq<char>,
    an: Seq<Map<Seq<char>, Seq<char>>>,
    dot_removed: bool,
    opts: HyphenatorOptions,
    use_intersection: bool,
) -> Seq<char> {
    if w.len() < opts.min_hyphenated_word_length {
        Seq::new(w.len(), |i: int| ' ')
    } else {
        let eff = if dot_removed {
            w.len() - 1
        } else {
            w.len() as int
        };
        let hs = compound_buffers(w, split_buffers(w, an, dot_removed, opts), eff, opts);
        bytes_to_chars(
            if use_intersection {
                spec_intersect(hs)
            } else {
                spec_union(hs)
            },
        )
    }
}

/// A buffer of `n` copies of `b`.
fn filled(b: u8, n: usize) -> (r: Vec<u8>)
    ensures
        r@ == Seq::new(n as nat, |i: int| b),
{
    let mut r: Vec<u8> = Vec::new();
    let mut i: usize = 0;
    while i < n
        invariant
            i <= n,
            r@ == Seq::new(i as nat, |k: int| b),
        decreases n - i,
    {
        r.push(b);
        i += 1;
        proof {
            assert(r@ =~= Seq::new(i as nat, |k: int| b));
        }
    }
    r
}

/// A copy of the buffer from position `start` on.
fn copy_from(h: &Vec<u8>, start: usize) -> (r: Vec<u8>)
    requires
        start <= h@.len(),
    ensures
        r@ == h@.skip(start as int),
{
    let mut r: Vec<u8> = Vec::new();
    let mut j: usize = start;
    while j < h.len()
        invariant
            start <= j <= h@.len(),
            r@ == h@.subrange(start as int, j as int),
        decreases h.len() - j,
    {
        r.push(h[j]);
        j += 1;
        proof {
            assert(r@ =~= h@.subrange(start as int, j as int));
        }
    }
    proof {
        assert(h@.subrange(start as int, h@.len() as int) =~= h@.skip(start as int));
    }
    r
}

/// Apply the syllable rules to the `n` characters of the word from
/// `start` on, reading and writing the buffer from the same position.
fn apply_segment(word: &[char], h: &mut Vec<u8>, start: usize, n: usize, ugly: bool)
    requires
        start + n <= word@.len(),
        start + n <= old(h)@.len(),
    ensures
        final(h)@ == segment_rules(word@, old(h)@, start as int, n as int, ugly),
        final(h)@.len() == old(h)@.len(),
{
    let ghost h0 = h@;
    let mut seg = copy_from(h, start);
    let sub = slice_subrange(word, start, word.len());
    assert(sub@ == word@.skip(start as int));
    rule_hyphenation(sub, seg.as_mut_slice(), n, ugly);
    let ghost done = seg@;
    assert(done == spec_rule_hyphenation(word@.skip(start as int), h0.skip(start as int), n as int, ugly));
    assert(done.len() == h0.len() - start);
    let hl = h.len();
    let mut j: usize = 0;
    while j < seg.len()
        invariant
            seg@ == done,
            done.len() == h0.len() - start,
            start <= h0.len(),
            h@.len() == h0.len(),
            j <= seg@.len(),
            seg@.len() == h0.len() - start,
            hl == h0.len(),
            forall|k: int| 0 <= k < start ==> h@[k] == h0[k],
            forall|k: int| 0 <= k < j ==> h@[start + k] == done[k],
        decreases seg.len() - j,
    {
        h[start + j] = seg[j];
        j += 1;
    }
    proof {
        assert(h@ =~= segment_rules(word@, h0, start as int, n as int, ugly));
    }
}

/// Apply the syllable rules within each compound part of the first `len`
/// positions of a buffer whose compound boundaries are marked.
pub fn compound_hyphenation(word: &[char], hyphenation: &mut Vec<u8>, len: usize, options: &HyphenatorOptions)
    requires
        len <= word@.len(),
        len <= old(hyphenation)@.len(),
    ensures
        final(hyphenation)@ == spec_compound_hyphenation(word@, old(hyphenation)@, len as int, *options),
        final(hyphenation)@.len() == old(hyphenation)@.len(),
{
    let ghost h0 = hyphenation@;
    let minlen = options.min_hyphenated_word_length;
    let ugly = options.ugly_hyphenation;
    let ghost target = spec_compound_hyphenation(word@, h0, len as int, *options);
    let mut start: usize = 0;
    while start < len && hyphenation[start] == 61u8
        invariant
            start <= len,
            len <= hyphenation@.len(),
            hyphenation@ == h0,
            skip_explicit(h0, start as int, len as int) == skip_explicit(h0, 0, len as int),
        decreases len - start,
    {
        start += 1;
    }
    if start >= len {
        return ;
    }
    let mut end: usize = start + 1;
    while end < len
        invariant
            start < end <= len,
            len <= word@.len(),
            len <= hyphenation@.len(),
            hyphenation@.len() == h0.len(),
            minlen == options.min_hyphenated_word_length,
            ugly == options.ugly_hyphenation,
            h0 == old(hyphenation)@,
            target == spec_compound_hyphenation(word@, h0, len as int, *options),
            compound_from(word@, hyphenation@, start as int, end as int, len as int, minlen as int, ugly)
                == target,
        decreases len - end,
    {
        if hyphenation[end] != 32u8 && hyphenation[end] != 88u8 {
            let ghost hb = hyphenation@;
            if end - start >= minlen {
                apply_segment(word, hyphenation, start, end - start, ugly);
            }
            assert(compound_from(word@, hb, start as int, end as int, len as int, minlen as int, ugly)
                == compound_from(
                word@,
                hyphenation@,
                (if hyphenation@[end as int] == 61u8 { end + 1 } else { end as int }),
                (if hyphenation@[end as int] == 61u8 { end + 2 } else { end + 1 }),
                len as int,
                minlen as int,
                ugly,
            ));
            if hyphenation[end] == 61u8 {
                if end + 1 >= len {
                    assert(compound_from(word@, hyphenation@, end + 1, end + 2, len as int, minlen as int, ugly)
                        == hyphenation@);
                    return ;
                }
                start = end + 1;
            } else {
                start = end;
            }
            end = start + 1;
        } else {
            end += 1;
        }
    }
    if end - start >= minlen {
        apply_segment(word, hyphenation, start, end - start, ugly);
    }
}

/// One hyphenation buffer per reading of the word, from the analyses used
/// for it (none for an unknown word); `dot_removed` tells that they are
/// analyses of the word without its final dot.
pub fn hyphenation_buffers(
    word: &[char],
    analyses: &Vec<Analysis>,
    dot_removed: bool,
    options: &HyphenatorOptions,
) -> (r: Vec<Vec<u8>>)
    requires
        dot_removed ==> word@.len() > 0,
    ensures
        buffers_view(r@) == split_buffers(word@, analyses_view(analyses@), dot_removed, *options),
        r@.len() > 0,
        forall|k: int| 0 <= k < r@.len() ==> (#[trigger] r@[k])@.len() == word@.len(),
{
    let len = word.len();
    let ghost an = analyses_view(analyses@);
    let mut all: Vec<Vec<u8>> = Vec::new();
    if analyses.len() == 0 {
        let fill: u8 = if options.hyphenate_unknown {
            32u8
        } else {
            88u8
        };
        let mut result: Vec<u8> = filled(fill, len);
        if allow_rule_hyphenation(word, len, options.ugly_hyphenation) {
            let mut i: usize = 1;
            while i < len - 1
                invariant
                    1 <= i <= len - 1,
                    len > 1,
                    len == word@.len(),
                    result@.len() == len,
                    spec_allow_rule_hyphenation(word@, len as int, options.ugly_hyphenation),
                    forall|k: int|
                        0 <= k < len ==> #[trigger] result@[k] == (if 1 <= k < i && word@[k] == '-' {
                            61u8
                        } else {
                            fill
                        }),
                decreases len - i,
            {
                if word[i] == '-' {
                    result[i] = 61u8;
                }
                i += 1;
            }
        }
        proof {
            let u = unknown_buffer(word@, *options);
            assert forall|k: int| 0 <= k < len implies #[trigger] result@[k] == u[k] by {
            }
            assert(result@ =~= u);
        }
        all.push(result);
        proof {
            assert(buffers_view(all@) =~= seq![unknown_buffer(word@, *options)]);
        }
    } else {
        let eff = if dot_removed {
            len - 1
        } else {
            len
        };
        let ghost counted = counted_analyses(an);
        let mut k: usize = 0;
        while k < analyses.len() && k < MAX_ANALYSIS_COUNT
            invariant
                an == analyses_view(analyses@),
                counted == counted_analyses(an),
                len == word@.len(),
                dot_removed ==> len > 0,
                eff == (if dot_removed { len - 1 } else { len as int }),
                k <= analyses@.len(),
                k <= MAX_ANALYSIS_COUNT,
                buffers_view(all@) == analysis_buffers(counted.take(k as int), len as int, dot_removed),
                forall|j: int| 0 <= j < all@.len() ==> (#[trigger] all@[j])@.len() == len,
            decreases analyses.len() - k,
        {
            let mut result: Vec<u8> = filled(32u8, len);
            interpret_analysis(&analyses[k], result.as_mut_slice(), eff);
            if dot_removed {
                result[len - 1] = 32u8;
            }
            proof {
                assert(counted[k as int] == analyses@[k as int]@);
                assert(result@ =~= analysis_buffer(counted[k as int], len as int, dot_removed));
            }
            let ghost before = all@;
            let ghost rv = result@;
            let ghost k0 = k as int;
            all.push(result);
            k += 1;
            proof {
                let nb = analysis_buffers(counted.take(k as int), len as int, dot_removed);
                let ob = analysis_buffers(counted.take(k0), len as int, dot_removed);
                assert(buffers_view(before).len() == before.len());
                assert(before.len() == k0);
                assert(all@.len() == k);
                assert forall|j: int| 0 <= j < k implies #[trigger] buffers_view(all@)[j] == nb[j] by {
                    if j < k0 {
                        assert(all@[j] == before[j]);
                        assert(buffers_view(before)[j] == ob[j]);
                    } else {
                        assert(all@[j]@ == rv);
                    }
                }
                assert(buffers_view(all@) =~= nb);
                assert forall|j: int| 0 <= j < all@.len() implies (#[trigger] all@[j])@.len() == len by {
                    if j < before.len() {
                        assert(all@[j] == before[j]);
                    }
                }
            }
        }
        proof {
            assert(counted.take(k as int) =~= counted);
        }
    }
    let ghost raw = buffers_view(all@);
    assert(raw.len() > 0);
    assert forall|j: int| 0 <= j < raw.len() implies (#[trigger] raw[j]).len() == len by {
        assert(raw[j] == all@[j]@);
    }
    assert forall|j: int| 0 <= j < all@.len() implies (#[trigger] all@[j])@.len() >= len by {
        assert(raw[j] == all@[j]@);
    }
    remove_extra_hyphenations(&mut all, len);
    proof {
        let p = |h: Seq<u8>| h.len() == len;
        assert forall|j: int| 0 <= j < raw.len() implies p(#[trigger] raw[j]) by {
        }
        lemma_prune_preserves(raw, 0, min_parts(raw, len as int), len as int, p);
        lemma_remove_extra_nonempty(raw, len as int);
        let fin = buffers_view(all@);
        assert(fin.len() == all@.len());
        assert forall|j: int| 0 <= j < all@.len() implies (#[trigger] all@[j])@.len() == len by {
            assert(fin[j] == all@[j]@);
            if min_parts(raw, len as int) <= 1 {
                assert(p(prune(raw, 0, min_parts(raw, len as int), len as int)[j]));
            }
        }
    }
    all
}

/// The hyphenation of a word from the analyses used for it (none for an
/// unknown word): intersection of the readings, or their union.
pub fn hyphenate_with_analyses(
    word: &[char],
    analyses: &Vec<Analysis>,
    dot_removed: bool,
    options: &HyphenatorOptions,
    use_intersection: bool,
) -> (r: String)
    requires
        dot_removed ==> word@.len() > 0,
    ensures
        r@ == spec_hyphenation(word@, analyses_view(analyses@), dot_removed, *options, use_intersection),
        r@.len() == word@.len(),
{
    let wlen = word.len();
    if wlen < options.min_hyphenated_word_length {
        let spaces: Vec<u8> = filled(32u8, wlen);
        let r = bytes_to_string(&spaces);
        proof {
            assert(r@ =~= spec_hyphenation(word@, analyses_view(analyses@), dot_removed, *options, use_intersection));
        }
        return r;
    }
    let hs = hyphenation_buffers(word, analyses, dot_removed, options);
    hyphenate_buffers(word, &hs, dot_removed, options, use_intersection)
}

/// The hyphenation of a word from its readings with compound boundaries
/// marked: syllable rules within every compound part of each reading, then
/// the intersection of the readings, or their union.
pub fn hyphenate_buffers(
    word: &[char],
    hs: &Vec<Vec<u8>>,
    dot_removed: bool,
    options: &HyphenatorOptions,
    use_intersection: bool,
) -> (r: String)
    requires
        dot_removed ==> word@.len() > 0,
        hs@.len() > 0,
        forall|k: int| 0 <= k < hs@.len() ==> (#[trigger] hs@[k])@.len() == word@.len(),
    ensures
        r@ == bytes_to_chars(
            if use_intersection {
                spec_intersect(
                    compound_buffers(
                        word@,
                        buffers_view(hs@),
                        if dot_removed {
                            word@.len() - 1
                        } else {
                            word@.len() as int
                        },
                        *options,
                    ),
                )
            } else {
                spec_union(
                    compound_buffers(
                        word@,
                        buffers_view(hs@),
                        if dot_removed {
                            word@.len() - 1
                        } else {
                            word@.len() as int
                        },
                        *options,
                    ),
                )
            },
        ),
        r@.len() == word@.len(),
{
    let wlen = word.len();
    let eff = if dot_removed {
        wlen - 1
    } else {
        wlen
    };
    let ghost split = buffers_view(hs@);
    let ghost target = compound_buffers(word@, split, eff as int, *options);
    let mut out: Vec<Vec<u8>> = Vec::new();
    let mut k: usize = 0;
    while k < hs.len()
        invariant
            buffers_view(hs@) == split,
            target == compound_buffers(word@, split, eff as int, *options),
            eff <= wlen,
            wlen == word@.len(),
            k <= hs@.len(),
            forall|j: int| 0 <= j < hs@.len() ==> (#[trigger] hs@[j])@.len() == wlen,
            buffers_view(out@) == target.take(k as int),
            forall|j: int| 0 <= j < out@.len() ==> (#[trigger] out@[j])@.len() == wlen,
        decreases hs.len() - k,
    {
        let mut h = copy_from(&hs[k], 0);
        assert(h@ =~= hs@[k as int]@);
        compound_hyphenation(word, &mut h, eff, options);
        proof {
            assert(split[k as int] == hs@[k as int]@);
        }
        let ghost before = out@;
        let ghost hv = h@;
        let ghost k0 = k as int;
        out.push(h);
        k += 1;
        proof {
            assert(buffers_view(before).len() == before.len());
            assert(before.len() == k0);
            assert(out@.len() == k);
            assert forall|j: int| 0 <= j < k implies #[trigger] buffers_view(out@)[j] == target.take(k as int)[j] by {
                if j < k0 {
                    assert(out@[j] == before[j]);
                    assert(buffers_view(before)[j] == target.take(k0)[j]);
                } else {
                    assert(out@[j]@ == hv);
                }
            }
            assert(buffers_view(out@) =~= target.take(k as int));
            assert forall|j: int| 0 <= j < out@.len() implies (#[trigger] out@[j])@.len() == wlen by {
                if j < before.len() {
                    assert(out@[j] == before[j]);
                }
            }
        }
    }
    proof {
        assert(target.take(k as int) =~= target);
        assert forall|j: int| 0 <= j < target.len() implies (#[trigger] target[j]).len() >= target[0].len() by {
            assert(target[j] == out@[j]@);
            assert(target[0] == out@[0]@);
        }
    }
    let r = if use_intersection {
        intersect_hyphenations(out.as_slice())
    } else {
        union_hyphenations(out.as_slice())
    };
    proof {
        assert(target[0] == out@[0]@);
    }
    r
}

/// The Finnish hyphenator: compound boundaries from the analyses of an
/// analyzer, syllable rules within each compound part.
pub struct FinnishHyphenator<A: Analyzer> {
    analyzer: A,
    options: HyphenatorOptions,
}

/// Which analyses a hyphenator uses, from the analyses of the lowercased
/// word (`first`) and of the word without its final dot (`retry`): the
/// retry is used when the first gave none and dot removal is allowed, and
/// the flag tells that the dot was removed, when the retry gave some.
pub open spec fn dot_retry(
    w: Seq<char>,
    opts: HyphenatorOptions,
    first: Seq<Analysis>,
    retry: Seq<Analysis>,
) -> (Seq<Analysis>, bool) {
    if first.len() == 0 && dot_removal_allowed(w, opts) {
        (retry, retry.len() > 0)
    } else {
        (first, false)
    }
}

/// `an` and `d` are the analyses and the dot flag that a hyphenator over
/// `analyzer` may take for `w`: chosen by `dot_retry` from the analyzer's
/// answer about the lowercased word and, where it is asked, its answer
/// about the lowercased word without its final dot.
pub open spec fn hyphenator_analyses<A: Analyzer>(
    analyzer: &A,
    w: Seq<char>,
    opts: HyphenatorOptions,
    an: Seq<Map<Seq<char>, Seq<char>>>,
    d: bool,
) -> bool {
    exists|first: Seq<Analysis>, retry: Seq<Analysis>|
        #![trigger dot_retry(w, opts, first, retry)]
        {
            &&& analyses_view(dot_retry(w, opts, first, retry).0) == an
            &&& dot_retry(w, opts, first, retry).1 == d
            &&& analyzer_answer(analyzer, lower_seq(w, w.len() as int), first)
            &&& first.len() == 0 && dot_removal_allowed(w, opts) ==> analyzer_answer(
                analyzer,
                lower_seq(w, w.len() - 1),
                retry,
            )
        }
}

/// `p` is a hyphenation that `h.hyphenate` may give for `w`: the one that
/// analyses and a dot flag which the hyphenator may take for the word give.
pub open spec fn hyphenate_answer<A: Analyzer>(h: &FinnishHyphenator<A>, w: Seq<char>, p: Seq<char>) -> bool {
    exists|an: Seq<Map<Seq<char>, Seq<char>>>, d: bool|
        (d ==> dot_removal_allowed(w, h.opts())) && p == #[trigger] spec_hyphenation(w, an, d, h.opts(), true)
            && (w.len() >= h.opts().min_hyphenated_word_length ==> hyphenator_analyses(
            &h.analyzer_used(),
            w,
            h.opts(),
            an,
            d,
        ))
}

/// The dot-removal that a hyphenator may make: only with `ignore_dot`, on
/// a word of more than one character that ends with `.`.
pub open spec fn dot_removal_allowed(w: Seq<char>, opts: HyphenatorOptions) -> bool {
    opts.ignore_dot && w.len() > 1 && w[w.len() - 1] == '.'
}

impl<A: Analyzer> FinnishHyphenator<A> {
    /// The current settings.
    pub closed spec fn opts(&self) -> HyphenatorOptions {
        self.options
    }

    /// The analyzer that the hyphenator consults.
    pub closed spec fn analyzer_used(&self) -> A {
        self.analyzer
    }

    /// A hyphenator over the given analyzer.
    pub fn new(analyzer: A, options: HyphenatorOptions) -> (r: Self)
        ensures
            r.opts() == options,
            r.analyzer_used() == analyzer,
    {
        FinnishHyphenator { analyzer, options }
    }

    /// Replace the settings.
    pub fn set_options(&mut self, options: HyphenatorOptions)
        ensures
            final(self).opts() == options,
            final(self).analyzer_used() == old(self).analyzer_used(),
    {
        self.options = options;
    }

    /// The current settings.
    pub fn options(&self) -> (r: &HyphenatorOptions)
        ensures
            *r == self.opts(),
    {
        &self.options
    }

    /// The analyses of the lowercased word; when there are none and the
    /// settings allow it, those of the word without its final dot (the
    /// flag then tells that the dot was removed).
    fn analyses_for(&self, word: &[char]) -> (r: (Vec<Analysis>, bool))
        ensures
            r.1 ==> dot_removal_allowed(word@, self.opts()) && r.0@.len() > 0,
            hyphenator_analyses(&self.analyzer_used(), word@, self.opts(), analyses_view(r.0@), r.1),
    {
        let len = word.len();
        let lower = lowercase_prefix(word, len);
        let analyses = ask_analyzer(&self.analyzer, lower.as_slice(), len);
        assert(lower@.take(len as int) =~= lower@);
        if analyses.len() == 0 && self.options.ignore_dot && len > 1 && word[len - 1] == '.' {
            let trimmed = slice_subrange(lower.as_slice(), 0, len - 1);
            let retry = ask_analyzer(&self.analyzer, trimmed, len - 1);
            proof {
                assert(trimmed@ =~= lower_seq(word@, len - 1));
                assert(trimmed@.take(len - 1) =~= trimmed@);
                assert(dot_retry(word@, self.opts(), analyses@, retry@) == (retry@, retry@.len() > 0));
            }
            if retry.len() > 0 {
                return (retry, true);
            }
            return (retry, false);
        }
        proof {
            assert(dot_retry(word@, self.opts(), analyses@, analyses@) == (analyses@, false));
        }
        (analyses, false)
    }

    /// The readings of a word, one hyphenation buffer each, with compound
    /// boundaries marked and needless compound readings removed, and
    /// whether they are readings of the word without its final dot.
    /// The buffers are those that the analyses give which the analyzer may
    /// answer for the word (`hyphenator_analyses`).
    fn split_compounds(&self, word: &[char]) -> (r: Option<(Vec<Vec<u8>>, bool)>)
        ensures
            r is Some,
            r.unwrap().1 ==> dot_removal_allowed(word@, self.opts()),
            r.unwrap().0@.len() > 0,
            forall|k: int|
                0 <= k < r.unwrap().0@.len() ==> (#[trigger] r.unwrap().0@[k])@.len() == word@.len(),
            exists|an: Seq<Map<Seq<char>, Seq<char>>>|
                buffers_view(r.unwrap().0@) == #[trigger] split_buffers(
                    word@,
                    an,
                    r.unwrap().1,
                    self.opts(),
                ) && hyphenator_analyses(&self.analyzer_used(), word@, self.opts(), an, r.unwrap().1),
    {
        let (analyses, dot_removed) = self.analyses_for(word);
        let hs = hyphenation_buffers(word, &analyses, dot_removed, &self.options);
        proof {
            assert(buffers_view(hs@) == split_buffers(word@, analyses_view(analyses@), dot_removed, self.opts()));
            assert(dot_removed ==> dot_removal_allowed(word@, self.opts()));
            assert(hs@.len() > 0);
            assert(exists|an: Seq<Map<Seq<char>, Seq<char>>>|
                buffers_view(hs@) == #[trigger] split_buffers(word@, an, dot_removed, self.opts())
                    && hyphenator_analyses(&self.analyzer_used(), word@, self.opts(), an, dot_removed));
        }
        let r = Some((hs, dot_removed));
        proof {
            assert(r.unwrap().0@ == hs@);
            assert(r.unwrap().1 == dot_removed);
        }
        r
    }

    /// The hyphenation of a word: intersection of the readings or their
    /// union. The result is the one that the analyses give which the
    /// analyzer may answer for the word (`hyphenator_analyses`).
    fn hyphenate_internal(&self, word: &[char], use_intersection: bool) -> (r: String)
        ensures
            r@.len() == word@.len(),
            exists|an: Seq<Map<Seq<char>, Seq<char>>>, d: bool|
                (d ==> dot_removal_allowed(word@, self.opts())) && r@ == #[trigger] spec_hyphenation(
                    word@,
                    an,
                    d,
                    self.opts(),
                    use_intersection,
                ) && (word@.len() >= self.opts().min_hyphenated_word_length ==> hyphenator_analyses(
                    &self.analyzer_used(),
                    word@,
                    self.opts(),
                    an,
                    d,
                )),
    {
        let options = self.options;
        if word.len() < options.min_hyphenated_word_length {
            let none: Vec<Analysis> = Vec::new();
            let r = hyphenate_with_analyses(word, &none, false, &options, use_intersection);
            assert(r@ == spec_hyphenation(word@, analyses_view(none@), false, self.opts(), use_intersection));
            return r;
        }
        match self.split_compounds(word) {
            Some((hs, dot_removed)) => {
                let r = hyphenate_buffers(word, &hs, dot_removed, &options, use_intersection);
                proof {
                    let an = choose|an: Seq<Map<Seq<char>, Seq<char>>>|
                        buffers_view(hs@) == #[trigger] split_buffers(word@, an, dot_removed, self.opts())
                            && hyphenator_analyses(&self.analyzer_used(), word@, self.opts(), an, dot_removed);
                    assert(r@ == spec_hyphenation(word@, an, dot_removed, self.opts(), use_intersection));
                }
                r
            },
            None => {
                let none: Vec<Analysis> = Vec::new();
                hyphenate_with_analyses(word, &none, false, &options, use_intersection)
            },
        }
    }
}

impl<A: Analyzer> Hyphenator for FinnishHyphenator<A> {
    fn hyphenate(&self, word: &[char]) -> (r: String)
        ensures
            exists|an: Seq<Map<Seq<char>, Seq<char>>>, d: bool|
                (d ==> dot_removal_allowed(word@, self.opts())) && r@ == #[trigger] spec_hyphenation(
                    word@,
                    an,
                    d,
                    self.opts(),
                    true,
                ) && (word@.len() >= self.opts().min_hyphenated_word_length ==> hyphenator_analyses(
                    &self.analyzer_used(),
                    word@,
                    self.opts(),
                    an,
                    d,
                )),
    {
        self.hyphenate_internal(word, true)
    }

    fn all_possible_hyphen_positions(&self, word: &[char]) -> (r: String)
        ensures
            exists|an: Seq<Map<Seq<char>, Seq<char>>>, d: bool|
                (d ==> dot_removal_allowed(word@, self.opts())) && r@ == #[trigger] spec_hyphenation(
                    word@,
                    an,
                    d,
                    self.opts(),
                    false,
                ) && (word@.len() >= self.opts().min_hyphenated_word_length ==> hyphenator_analyses(
                    &self.analyzer_used(),
                    word@,
                    self.opts(),
                    an,
                    d,
                )),
    {
        self.hyphenate_internal(word, false)
    }
}

/// A hyphenator over an analyzer that answers alike for alike words takes
/// one set of analyses and one dot flag for a word.
proof fn lemma_hyphenator_analyses_alike<A: Analyzer>(
    analyzer: &A,
    w: Seq<char>,
    opts: HyphenatorOptions,
    an1: Seq<Map<Seq<char>, Seq<char>>>,
    d1: bool,
    an2: Seq<Map<Seq<char>, Seq<char>>>,
    d2: bool,
)
    requires
        analyses_alike(analyzer),
        hyphenator_analyses(analyzer, w, opts, an1, d1),
        hyphenator_analyses(analyzer, w, opts, an2, d2),
    ensures
        an1 == an2,
        d1 == d2,
{
    let (f1, t1) = choose|first: Seq<Analysis>, retry: Seq<Analysis>|
        #![trigger dot_retry(w, opts, first, retry)]
        {
            &&& analyses_view(dot_retry(w, opts, first, retry).0) == an1
            &&& dot_retry(w, opts, first, retry).1 == d1
            &&& analyzer_answer(analyzer, lower_seq(w, w.len() as int), first)
            &&& first.len() == 0 && dot_removal_allowed(w, opts) ==> analyzer_answer(
                analyzer,
                lower_seq(w, w.len() - 1),
                retry,
            )
        };
    let (f2, t2) = choose|first: Seq<Analysis>, retry: Seq<Analysis>|
        #![trigger dot_retry(w, opts, first, retry)]
        {
            &&& analyses_view(dot_retry(w, opts, first, retry).0) == an2
            &&& dot_retry(w, opts, first, retry).1 == d2
            &&& analyzer_answer(analyzer, lower_seq(w, w.len() as int), first)
            &&& first.len() == 0 && dot_removal_allowed(w, opts) ==> analyzer_answer(
                analyzer,
                lower_seq(w, w.len() - 1),
                retry,
            )
        };
    assert(f1 == f2);
    if f1.len() == 0 && dot_removal_allowed(w, opts) {
        assert(t1 == t2);
    }
}

/// With an analyzer that answers alike for alike words, every break that
/// `hyphenate` gives a word is among the breaks that
/// `all_possible_hyphen_positions` gives it. Each result is described by its
/// contract: the hyphenation (`spec_hyphenation`) from analyses and a dot
/// flag that the hyphenator may take for the word (`hyphenator_analyses`).
pub proof fn lemma_hyphenate_breaks_within_all_positions<A: Analyzer>(
    analyzer: &A,
    w: Seq<char>,
    opts: HyphenatorOptions,
    an1: Seq<Map<Seq<char>, Seq<char>>>,
    d1: bool,
    an2: Seq<Map<Seq<char>, Seq<char>>>,
    d2: bool,
    i: int,
)
    requires
        analyses_alike(analyzer),
        d1 ==> dot_removal_allowed(w, opts),
        w.len() >= opts.min_hyphenated_word_length ==> hyphenator_analyses(analyzer, w, opts, an1, d1),
        d2 ==> dot_removal_allowed(w, opts),
        w.len() >= opts.min_hyphenated_word_length ==> hyphenator_analyses(analyzer, w, opts, an2, d2),
        0 <= i < spec_hyphenation(w, an1, d1, opts, true).len(),
        spec_hyphenation(w, an1, d1, opts, true)[i] != ' ',
    ensures
        spec_hyphenation(w, an2, d2, opts, false)[i] != ' ',
{
    if w.len() >= opts.min_hyphenated_word_length {
        lemma_hyphenator_analyses_alike(analyzer, w, opts, an1, d1, an2, d2);
        lemma_hyphenate_within_all_positions(w, an1, d1, opts, i);
    } else {
        assert(spec_hyphenation(w, an1, d1, opts, true)[i] == ' ');
    }
}

/// Every break that `hyphenate` gives a word is also among the breaks that
/// `all_possible_hyphen_positions` gives it from the same analyses.
pub proof fn lemma_hyphenate_within_all_positions(
    w: Seq<char>,
    an: Seq<Map<Seq<char>, Seq<char>>>,
    d: bool,
    opts: HyphenatorOptions,
    i: int,
)
    requires
        0 <= i < spec_hyphenation(w, an, d, opts, true).len(),
        spec_hyphenation(w, an, d, opts, true)[i] != ' ',
    ensures
        spec_hyphenation(w, an, d, opts, false)[i] != ' ',
        spec_hyphenation(w, an, d, opts, false).len() == spec_hyphenation(w, an, d, opts, true).len(),
{
    if w.len() >= opts.min_hyphenated_word_length {
        let eff = if d {
            w.len() - 1
        } else {
            w.len() as int
        };
        let hs = compound_buffers(w, split_buffers(w, an, d, opts), eff, opts);
        assert(spec_intersect(hs)[i] as char != ' ');
        assert(spec_intersect(hs)[i] != 32u8);
        lemma_intersection_within_union(hs, i);
    }
}


/// With at most one analysis there is a single reading, and `hyphenate`
/// and `all_possible_hyphen_positions` give the same breaks.
pub proof fn lemma_single_reading_same_breaks(
    w: Seq<char>,
    an: Seq<Map<Seq<char>, Seq<char>>>,
    d: bool,
    opts: HyphenatorOptions,
)
    requires
        an.len() <= 1,
    ensures
        spec_hyphenation(w, an, d, opts, true) == spec_hyphenation(w, an, d, opts, false),
{
    if w.len() >= opts.min_hyphenated_word_length {
        let eff = if d {
            w.len() - 1
        } else {
            w.len() as int
        };
        let raw = if an.len() == 0 {
            seq![unknown_buffer(w, opts)]
        } else {
            analysis_buffers(counted_analyses(an), w.len() as int, d)
        };
        assert(raw.len() == 1);
        let m = min_parts(raw, w.len() as int);
        assert(m == count_parts(raw[0], w.len() as int));
        if m <= 1 {
            assert(prune(raw, 1, m, w.len() as int) == raw);
            assert(prune(raw, 0, m, w.len() as int) == raw);
        }
        let split = split_buffers(w, an, d, opts);
        assert(split == raw);
        let hs = compound_buffers(w, split, eff, opts);
        assert(hs.len() == 1);
        assert(spec_intersect(hs) =~= spec_union(hs));
    }
}

/// A hyphenator over an analyzer that gives at most one analysis for any
/// word takes at most one analysis for a word.
proof fn lemma_hyphenator_single_reading<A: Analyzer>(
    analyzer: &A,
    w: Seq<char>,
    opts: HyphenatorOptions,
    an: Seq<Map<Seq<char>, Seq<char>>>,
    d: bool,
)
    requires
        single_readings(analyzer),
        hyphenator_analyses(analyzer, w, opts, an, d),
    ensures
        an.len() <= 1,
{
    let (f, t) = choose|first: Seq<Analysis>, retry: Seq<Analysis>|
        #![trigger dot_retry(w, opts, first, retry)]
        {
            &&& analyses_view(dot_retry(w, opts, first, retry).0) == an
            &&& dot_retry(w, opts, first, retry).1 == d
            &&& analyzer_answer(analyzer, lower_seq(w, w.len() as int), first)
            &&& first.len() == 0 && dot_removal_allowed(w, opts) ==> analyzer_answer(
                analyzer,
                lower_seq(w, w.len() - 1),
                retry,
            )
        };
    assert(f.len() <= 1);
    if f.len() == 0 && dot_removal_allowed(w, opts) {
        assert(t.len() <= 1);
    }
}

/// With an analyzer that answers alike for alike words and gives at most
/// one analysis for any word, `hyphenate` and
/// `all_possible_hyphen_positions` give a word the same breaks. Each result
/// is described by its contract: the hyphenation (`spec_hyphenation`) from
/// analyses and a dot flag that the hyphenator may take for the word
/// (`hyphenator_analyses`).
pub proof fn lemma_single_readings_same_hyphenation<A: Analyzer>(
    analyzer: &A,
    w: Seq<char>,
    opts: HyphenatorOptions,
    an1: Seq<Map<Seq<char>, Seq<char>>>,
    d1: bool,
    an2: Seq<Map<Seq<char>, Seq<char>>>,
    d2: bool,
)
    requires
        analyses_alike(analyzer),
        single_readings(analyzer),
        w.len() >= opts.min_hyphenated_word_length ==> hyphenator_analyses(analyzer, w, opts, an1, d1),
        w.len() >= opts.min_hyphenated_word_length ==> hyphenator_analyses(analyzer, w, opts, an2, d2),
    ensures
        spec_hyphenation(w, an1, d1, opts, true) == spec_hyphenation(w, an2, d2, opts, false),
{
    if w.len() >= opts.min_hyphenated_word_length {
        lemma_hyphenator_analyses_alike(analyzer, w, opts, an1, d1, an2, d2);
        lemma_hyphenator_single_reading(analyzer, w, opts, an1, d1);
        lemma_single_reading_same_breaks(w, an1, d1, opts);
    } else {
        assert(spec_hyphenation(w, an1, d1, opts, true) =~= spec_hyphenation(w, an2, d2, opts, false));
    }
}

proof fn lemma_skip_explicit_from(h: Seq<u8>, s: int, len: int)
    ensures
        s <= skip_explicit(h, s, len),
    decreases len - s,
{
    if s < len && h[s] == 61u8 {
        lemma_skip_explicit_from(h, s + 1, len);
    }
}

proof fn lemma_segment_marks(w: Seq<char>, h: Seq<u8>, start: int, n: int, ugly: bool)
    requires
        buffer_marks(h),
        0 <= start,
        0 <= n,
        start + n <= h.len(),
    ensures
        segment_rules(w, h, start, n, ugly).len() == h.len(),
        buffer_marks(segment_rules(w, h, start, n, ugly)),
{
    let t = h.skip(start);
    assert forall|j: int| 0 <= j < t.len() implies #[trigger] is_buffer_byte(t[j]) by {
        assert(t[j] == h[start + j]);
        assert(is_buffer_byte(h[start + j]));
    }
    lemma_rule_hyphenation_marks(w.skip(start), t, n, ugly);
    let tail = spec_rule_hyphenation(w.skip(start), t, n, ugly);
    let r = h.take(start) + tail;
    assert forall|j: int| 0 <= j < r.len() implies #[trigger] is_buffer_byte(r[j]) by {
        if j < start {
            assert(r[j] == h[j]);
            assert(is_buffer_byte(h[j]));
        } else {
            assert(r[j] == tail[j - start]);
            assert(is_buffer_byte(tail[j - start]));
        }
    }
}

proof fn lemma_compound_from_marks(
    w: Seq<char>,
    h: Seq<u8>,
    start: int,
    end: int,
    len: int,
    minlen: int,
    ugly: bool,
)
    requires
        buffer_marks(h),
        len <= h.len(),
        0 <= start <= end,
    ensures
        compound_from(w, h, start, end, len, minlen, ugly).len() == h.len(),
        buffer_marks(compound_from(w, h, start, end, len, minlen, ugly)),
    decreases len + 1 - end,
{
    if end < len && 0 <= end {
        if h[end] != 32u8 && h[end] != 88u8 {
            let h2 = if end >= start + minlen {
                lemma_segment_marks(w, h, start, end - start, ugly);
                segment_rules(w, h, start, end - start, ugly)
            } else {
                h
            };
            let ns = if h2[end] == 61u8 {
                end + 1
            } else {
                end
            };
            lemma_compound_from_marks(w, h2, ns, ns + 1, len, minlen, ugly);
        } else {
            lemma_compound_from_marks(w, h, start, end + 1, len, minlen, ugly);
        }
    } else if end == len && start < end && end >= start + minlen {
        lemma_segment_marks(w, h, start, end - start, ugly);
    }
}

proof fn lemma_compound_buffers_marks(w: Seq<char>, hs: Seq<Seq<u8>>, len: int, opts: HyphenatorOptions)
    requires
        0 <= len <= w.len(),
        forall|k: int| 0 <= k < hs.len() ==> (#[trigger] hs[k]).len() == w.len() && buffer_marks(hs[k]),
    ensures
        forall|k: int| 0 <= k < compound_buffers(w, hs, len, opts).len() ==> buffer_marks(
            #[trigger] compound_buffers(w, hs, len, opts)[k],
        ),
{
    assert forall|k: int| 0 <= k < compound_buffers(w, hs, len, opts).len() implies buffer_marks(
        #[trigger] compound_buffers(w, hs, len, opts)[k],
    ) by {
        let h = hs[k];
        let s = skip_explicit(h, 0, len);
        lemma_skip_explicit_from(h, 0, len);
        lemma_compound_from_marks(
            w,
            h,
            s,
            s + 1,
            len,
            opts.min_hyphenated_word_length as int,
            opts.ugly_hyphenation,
        );
    }
}

proof fn lemma_split_buffers_marks(
    w: Seq<char>,
    an: Seq<Map<Seq<char>, Seq<char>>>,
    d: bool,
    opts: HyphenatorOptions,
)
    requires
        d ==> w.len() >= 1,
    ensures
        forall|k: int| 0 <= k < split_buffers(w, an, d, opts).len() ==> (#[trigger] split_buffers(
            w,
            an,
            d,
            opts,
        )[k]).len() == w.len() && buffer_marks(split_buffers(w, an, d, opts)[k]),
{
    let wlen = w.len() as int;
    let raw = if an.len() == 0 {
        seq![unknown_buffer(w, opts)]
    } else {
        analysis_buffers(counted_analyses(an), wlen, d)
    };
    let p = |h: Seq<u8>| h.len() == wlen && buffer_marks(h);
    assert forall|k: int| 0 <= k < raw.len() implies p(#[trigger] raw[k]) by {
        if an.len() == 0 {
            let u = unknown_buffer(w, opts);
            assert(raw[k] == u);
            assert forall|j: int| 0 <= j < u.len() implies #[trigger] is_buffer_byte(u[j]) by {}
        } else {
            let a = counted_analyses(an)[k];
            let eff = if d {
                wlen - 1
            } else {
                wlen
            };
            let b0 = Seq::new(wlen as nat, |i: int| 32u8);
            assert forall|j: int| 0 <= j < b0.len() implies #[trigger] is_buffer_byte(b0[j]) by {}
            lemma_interpret_analysis_marks(a, b0, eff);
            let b = spec_interpret_analysis(a, b0, eff);
            assert(raw[k] == analysis_buffer(a, wlen, d));
            if d {
                let c = b.update(wlen - 1, 32u8);
                assert forall|j: int| 0 <= j < c.len() implies #[trigger] is_buffer_byte(c[j]) by {
                    assert(is_buffer_byte(b[j]));
                }
            }
        }
    }
    let m = min_parts(raw, wlen);
    if m <= 1 {
        lemma_prune_preserves(raw, 0, m, wlen, p);
    }
    assert forall|k: int| 0 <= k < split_buffers(w, an, d, opts).len() implies (#[trigger] split_buffers(
        w,
        an,
        d,
        opts,
    )[k]).len() == w.len() && buffer_marks(split_buffers(w, an, d, opts)[k]) by {
        assert(p(split_buffers(w, an, d, opts)[k]));
    }
}

/// A hyphenation holds only `' '` (no break), `'-'` (a break) and `'='` (a
/// break at an explicit hyphen), whatever the analyses.
pub proof fn lemma_hyphenation_marks(
    w: Seq<char>,
    an: Seq<Map<Seq<char>, Seq<char>>>,
    d: bool,
    opts: HyphenatorOptions,
    use_intersection: bool,
)
    requires
        d ==> dot_removal_allowed(w, opts),
    ensures
        forall|i: int|
            0 <= i < spec_hyphenation(w, an, d, opts, use_intersection).len() ==> {
                let c = #[trigger] spec_hyphenation(w, an, d, opts, use_intersection)[i];
                c == ' ' || c == '-' || c == '='
            },
{
    if w.len() >= opts.min_hyphenated_word_length {
        let eff = if d {
            w.len() - 1
        } else {
            w.len() as int
        };
        lemma_split_buffers_marks(w, an, d, opts);
        let sb = split_buffers(w, an, d, opts);
        lemma_compound_buffers_marks(w, sb, eff, opts);
        let hs = compound_buffers(w, sb, eff, opts);
        lemma_merge_marks(hs);
    }
}

} // verus!
