//! Autocorrection of a sentence: the text that an autocorrect transducer
//! reads, where it reads it, and the errors made of its answers.
//!
//! The transducer itself is consulted by the caller: for each position
//! that `lookup_count` names, it matches a prefix of the input from that
//! position and answers with the corrected text and the prefix length.

use vstd::prelude::*;
use crate::character::{spec_is_upper, is_upper, lowercase_of, uppercase_of, simple_lower, simple_upper};
use crate::enums::TokenType;
use crate::grammar::checks::{ErrorView, tlen, push_error, error_suggesting_chars};
use crate::grammar::paragraph::{GrammarSentence, GrammarToken, strip_soft_hyphens};
use crate::grammar_error::{GrammarError, errors_view, GCERR_INVALID_SPELLING};
use crate::text::{str_to_chars, chars_to_vec, without_soft_hyphens, lemma_without_soft_hyphens};

verus! {

/// Longest input, in characters, given to the transducer.
pub const BUFFER_SIZE: usize = 20000;

/// Characters in all tokens.
pub open spec fn total_len(ts: Seq<GrammarToken>) -> int
    decreases ts.len(),
{
    if ts.len() == 0 {
        0
    } else {
        total_len(ts.drop_last()) + tlen(ts.last())
    }
}

/// The characters that a token that is not whitespace gives the input:
/// soft hyphens left out, the first letter lowered when asked.
pub open spec fn token_input(t: GrammarToken, lowered: bool) -> Seq<char> {
    let tx = if lowered && tlen(t) > 0 {
        t.text@.update(0, lowercase_of(t.text@[0]))
    } else {
        t.text@
    };
    without_soft_hyphens(tx)
}

/// The input of the transducer as plain values: the text (whitespace
/// reduced to one space, soft hyphens left out), for each word its offset
/// in the text and in the sentence, and for each token boundary its offset
/// in the sentence and in the text.
pub type InputView = (Seq<char>, Seq<(int, int)>, Seq<int>, Seq<int>);

/// The input built from token `k` on; `None` when it would reach
/// `BUFFER_SIZE` characters.
pub open spec fn input_from(ts: Seq<GrammarToken>, k: int, lower_first: bool, st: InputView) -> Option<InputView>
    decreases ts.len() - k,
{
    if k < 0 || k >= ts.len() {
        Some(st)
    } else {
        let t = ts[k];
        let buf = st.0;
        let ucs = st.2.last();
        let looks = if t.token_type == TokenType::Word {
            st.1.push((buf.len() as int, ucs))
        } else {
            st.1
        };
        if t.token_type == TokenType::Whitespace {
            if buf.len() >= BUFFER_SIZE {
                None
            } else {
                input_from(ts, k + 1, lower_first, (buf.push(' '), looks, st.2.push(ucs + tlen(t)), st.3.push(st.3[k] + 1)))
            }
        } else if buf.len() + tlen(t) >= BUFFER_SIZE {
            None
        } else {
            let cs = token_input(t, lower_first && k == 0);
            input_from(
                ts,
                k + 1,
                lower_first,
                (buf + cs, looks, st.2.push(ucs + tlen(t)), st.3.push(st.3[k] + cs.len())),
            )
        }
    }
}

/// The input of a sentence.
pub open spec fn sentence_input(ts: Seq<GrammarToken>, lower_first: bool) -> Option<InputView> {
    input_from(ts, 0, lower_first, (Seq::empty(), Seq::empty(), seq![0int], seq![0int]))
}

/// The input of the autocorrect transducer for one sentence.
pub struct AutocorrectInput {
    /// The text read by the transducer.
    pub buffer: Vec<char>,
    /// For each word: its offset in `buffer` and in the sentence.
    pub lookups: Vec<(usize, usize)>,
    /// For each token boundary: its offset in the sentence.
    pub sentence_positions: Vec<usize>,
    /// For each token boundary: its offset in `buffer`.
    pub text_positions: Vec<usize>,
}

/// Offsets as integers.
pub open spec fn offsets_view(v: Seq<usize>) -> Seq<int> {
    v.map_values(|x: usize| x as int)
}

/// Pairs of offsets as integers.
pub open spec fn pairs_view(v: Seq<(usize, usize)>) -> Seq<(int, int)> {
    v.map_values(|x: (usize, usize)| (x.0 as int, x.1 as int))
}

/// The input as plain values.
pub open spec fn input_view(i: AutocorrectInput) -> InputView {
    (i.buffer@, pairs_view(i.lookups@), offsets_view(i.sentence_positions@), offsets_view(i.text_positions@))
}

/// The input as plain values, if any.
pub open spec fn opt_input_view(o: Option<AutocorrectInput>) -> Option<InputView> {
    match o {
        Some(i) => Some(input_view(i)),
        None => None,
    }
}

proof fn lemma_total_len_step(ts: Seq<GrammarToken>, k: int)
    requires
        0 <= k < ts.len(),
    ensures
        total_len(ts.take(k + 1)) == total_len(ts.take(k)) + tlen(ts[k]),
{
    assert(ts.take(k + 1).drop_last() =~= ts.take(k));
}

proof fn lemma_total_len_prefix(ts: Seq<GrammarToken>, k: int)
    requires
        0 <= k <= ts.len(),
    ensures
        total_len(ts.take(k)) <= total_len(ts),
    decreases ts.len() - k,
{
    if k < ts.len() {
        lemma_total_len_step(ts, k);
        lemma_total_len_prefix(ts, k + 1);
    } else {
        assert(ts.take(k) =~= ts);
    }
}

/// The characters a token gives the input.
fn token_input_exec(t: &GrammarToken, lowered: bool) -> (r: Vec<char>)
    ensures
        r@ == token_input(*t, lowered),
{
    if lowered && t.text.len() > 0 {
        let mut tx = chars_to_vec(t.text.as_slice());
        tx[0] = simple_lower(t.text[0]);
        strip_soft_hyphens(tx.as_slice())
    } else {
        strip_soft_hyphens(t.text.as_slice())
    }
}

/// The input of the autocorrect transducer for a sentence, with the first
/// letter of the first token lowered when asked; `None` when the input
/// would reach `BUFFER_SIZE` characters.
pub fn autocorrect_input(sentence: &GrammarSentence, lower_first: bool) -> (r: Option<AutocorrectInput>)
    requires
        total_len(sentence.tokens@) + BUFFER_SIZE <= usize::MAX,
    ensures
        opt_input_view(r) == sentence_input(sentence.tokens@, lower_first),
        r matches Some(i) ==> (sentence.pos + total_len(sentence.tokens@) + BUFFER_SIZE <= usize::MAX ==> input_fits(
            *sentence,
            input_view(i),
        )),
{
    let ghost ts = sentence.tokens@;
    let tokens = &sentence.tokens;
    let mut buffer: Vec<char> = Vec::new();
    let mut lookups: Vec<(usize, usize)> = Vec::new();
    let mut sent_pos: Vec<usize> = Vec::new();
    sent_pos.push(0);
    let mut text_pos: Vec<usize> = Vec::new();
    text_pos.push(0);
    let mut len_ucs: usize = 0;
    let mut k: usize = 0;
    proof {
        assert(pairs_view(lookups@) =~= Seq::<(int, int)>::empty());
        assert(offsets_view(sent_pos@) =~= seq![0int]);
        assert(offsets_view(text_pos@) =~= seq![0int]);
    }
    while k < tokens.len()
        invariant
            ts == tokens@,
            ts == sentence.tokens@,
            total_len(ts) + BUFFER_SIZE <= usize::MAX,
            k <= ts.len(),
            buffer@.len() <= BUFFER_SIZE,
            sent_pos@.len() == k + 1,
            text_pos@.len() == k + 1,
            len_ucs == total_len(ts.take(k as int)),
            sent_pos@[k as int] == len_ucs,
            text_pos@[k as int] == buffer@.len(),
            forall|n: int| 0 <= n < sent_pos@.len() ==> #[trigger] sent_pos@[n] <= len_ucs,
            forall|n: int| 0 <= n < text_pos@.len() ==> #[trigger] text_pos@[n] <= buffer@.len(),
            forall|m: int| 0 <= m < lookups@.len() ==> (#[trigger] lookups@[m]).0 <= buffer@.len() && lookups@[m].1 <= len_ucs,
            input_from(ts, k as int, lower_first, (buffer@, pairs_view(lookups@), offsets_view(sent_pos@), offsets_view(text_pos@)))
                == sentence_input(ts, lower_first),
        decreases tokens.len() - k,
    {
        let t = &tokens[k];
        proof {
            lemma_total_len_step(ts, k as int);
            lemma_total_len_prefix(ts, k + 1);
        }
        let ghost st: InputView = (buffer@, pairs_view(lookups@), offsets_view(sent_pos@), offsets_view(text_pos@));
        assert(st.2.last() == len_ucs);
        assert(st.3[k as int] == buffer@.len());
        if t.token_type == TokenType::Word {
            let ghost before = lookups@;
            lookups.push((buffer.len(), len_ucs));
            proof {
                assert(pairs_view(lookups@) =~= pairs_view(before).push((buffer@.len() as int, len_ucs as int)));
            }
        }
        let ghost looks = pairs_view(lookups@);
        if t.token_type == TokenType::Whitespace {
            if buffer.len() >= BUFFER_SIZE {
                return None;
            }
            buffer.push(' ');
            let nk = text_pos[k];
            let ghost nbefore = text_pos@;
            text_pos.push(nk + 1);
            proof {
                assert(offsets_view(text_pos@) =~= offsets_view(nbefore).push(nbefore[k as int] + 1));
            }
        } else {
            if buffer.len() + t.token_len() >= BUFFER_SIZE {
                return None;
            }
            let cs = token_input_exec(t, lower_first && k == 0);
            let ghost bbefore = buffer@;
            let mut j: usize = 0;
            while j < cs.len()
                invariant
                    j <= cs@.len(),
                    buffer@ == bbefore + cs@.take(j as int),
                decreases cs.len() - j,
            {
                buffer.push(cs[j]);
                j += 1;
                proof {
                    assert(buffer@ =~= bbefore + cs@.take(j as int));
                }
            }
            proof {
                assert(cs@.take(j as int) =~= cs@);
                assert(cs@.len() <= t.text@.len()) by {
                    lemma_without_soft_hyphens(if lower_first && k == 0 && tlen(*t) > 0 {
                        t.text@.update(0, lowercase_of(t.text@[0]))
                    } else {
                        t.text@
                    });
                }
            }
            let nk = text_pos[k];
            let ghost nbefore = text_pos@;
            text_pos.push(nk + cs.len());
            proof {
                assert(offsets_view(text_pos@) =~= offsets_view(nbefore).push(nbefore[k as int] + cs@.len()));
            }
        }
        len_ucs += t.token_len();
        let ghost obefore = sent_pos@;
        sent_pos.push(len_ucs);
        proof {
            assert(offsets_view(sent_pos@) =~= offsets_view(obefore).push(st.2.last() + tlen(ts[k as int])));
        }
        k += 1;
    }
    proof {
        assert(ts.take(k as int) =~= ts);
        let inp = (buffer@, pairs_view(lookups@), offsets_view(sent_pos@), offsets_view(text_pos@));
        assert(inp.2.last() == len_ucs);
        assert forall|n: int| 0 <= n < inp.2.len() implies 0 <= #[trigger] inp.2[n] <= inp.2.last() by {
            assert(inp.2[n] == sent_pos@[n]);
        }
        assert forall|n: int| 0 <= n < inp.3.len() implies 0 <= #[trigger] inp.3[n] <= inp.0.len() by {
            assert(inp.3[n] == text_pos@[n]);
        }
        assert forall|m: int| 0 <= m < inp.1.len() implies 0 <= (#[trigger] inp.1[m]).0 <= inp.0.len() && 0 <= inp.1[m].1 <= inp.2.last() by {
            assert(inp.1[m] == (lookups@[m].0 as int, lookups@[m].1 as int));
        }
    }
    Some(AutocorrectInput { buffer, lookups, sentence_positions: sent_pos, text_positions: text_pos })
}


/// How many of the leading words the transducer is consulted for: all of
/// them, or, with the first letter lowered, those at the very start of the
/// text.
pub open spec fn consulted_from(looks: Seq<(int, int)>, j: int, lower_first: bool) -> int
    decreases looks.len() - j,
{
    if j < 0 || j >= looks.len() || (lower_first && looks[j].0 > 0) {
        j
    } else {
        consulted_from(looks, j + 1, lower_first)
    }
}

proof fn lemma_consulted_ge(looks: Seq<(int, int)>, j: int, lower_first: bool)
    requires
        0 <= j <= looks.len(),
    ensures
        consulted_from(looks, j, lower_first) >= j,
    decreases looks.len() - j,
{
    if j < looks.len() && !(lower_first && looks[j].0 > 0) {
        lemma_consulted_ge(looks, j + 1, lower_first);
    }
}

/// How many answers of the transducer `autocorrect_errors` reads.
pub fn lookup_count(input: &AutocorrectInput, lower_first: bool) -> (r: usize)
    ensures
        r == consulted_from(pairs_view(input.lookups@), 0, lower_first),
{
    let ghost looks = pairs_view(input.lookups@);
    let mut j: usize = 0;
    while j < input.lookups.len()
        invariant
            looks == pairs_view(input.lookups@),
            j <= looks.len(),
            consulted_from(looks, j as int, lower_first) == consulted_from(looks, 0, lower_first),
        decreases input.lookups.len() - j,
    {
        if lower_first && input.lookups[j].0 > 0 {
            return j;
        }
        j += 1;
    }
    j
}

/// `x` when it is not negative, 0 otherwise.
pub open spec fn sat(x: int) -> int {
    if x < 0 {
        0
    } else {
        x
    }
}

/// The difference between sentence offsets and text offsets (soft
/// hyphens and long whitespace) to add to a match of length `plen` that
/// starts at `start`, read over the token boundaries from `n` on.
pub open spec fn length_correction_from(
    orig: Seq<int>,
    norm: Seq<int>,
    n: int,
    start: int,
    plen: int,
    lc: int,
) -> int
    decreases orig.len() - n,
{
    if n < 0 || n >= orig.len() {
        lc
    } else {
        let lc1 = if orig[n] <= start {
            sat(orig[n] - norm[n])
        } else {
            lc
        };
        if norm[n] > start + plen {
            if n > 0 {
                sat(sat(orig[n - 1] - norm[n - 1]) - lc1)
            } else {
                lc1
            }
        } else {
            length_correction_from(orig, norm, n + 1, start, plen, lc1)
        }
    }
}

/// A transducer answer as plain values: the corrected text and the length
/// of the matched prefix.
pub open spec fn answers_view(v: Seq<Option<(String, usize)>>) -> Seq<Option<(Seq<char>, int)>> {
    v.map_values(
        |a: Option<(String, usize)>|
            match a {
                Some((s, n)) => Some((s@, n as int)),
                None => None,
            },
    )
}

/// The errors, and whether the sentence should be tried again with its
/// first letter lowered, from the answer for word `j` on. A match that
/// ends at a token boundary is an error over the matched text, with the
/// corrected text (its first letter raised again when it was lowered) as
/// suggestion; no match at the start of a sentence that starts with an
/// upper-case letter asks for another try.
pub open spec fn autocorrect_from(
    s: GrammarSentence,
    inp: InputView,
    lower_first: bool,
    answers: Seq<Option<(Seq<char>, int)>>,
    j: int,
    errors: Seq<ErrorView>,
    need: bool,
) -> (Seq<ErrorView>, bool)
    decreases inp.1.len() - j,
{
    if j < 0 || j >= inp.1.len() || (lower_first && inp.1[j].0 > 0) {
        (errors, need)
    } else {
        let position = inp.1[j].0;
        let ucs = inp.1[j].1;
        match answers[j] {
            Some(m) => if m.1 > 0 {
                if !(exists|p: int| 0 <= p < inp.3.len() && ucs + m.1 == #[trigger] inp.3[p]) {
                    autocorrect_from(s, inp, lower_first, answers, j + 1, errors, need)
                } else {
                    let start = s.pos + ucs;
                    let lc = length_correction_from(inp.2, inp.3, 0, start, m.1, 0);
                    let sug = if lower_first && m.0.len() > 0 {
                        m.0.update(0, uppercase_of(m.0[0]))
                    } else {
                        m.0
                    };
                    autocorrect_from(
                        s,
                        inp,
                        lower_first,
                        answers,
                        j + 1,
                        errors.push((GCERR_INVALID_SPELLING, start, m.1 + lc, seq![sug])),
                        need,
                    )
                }
            } else {
                autocorrect_from(s, inp, lower_first, answers, j + 1, errors, need || first_needs_lowering(s, position, lower_first))
            },
            None => autocorrect_from(s, inp, lower_first, answers, j + 1, errors, need || first_needs_lowering(s, position, lower_first)),
        }
    }
}

/// No match for the word at the start of a sentence whose first letter is
/// upper case, on the first try.
pub open spec fn first_needs_lowering(s: GrammarSentence, position: int, lower_first: bool) -> bool {
    !lower_first && position == 0 && s.tokens@.len() > 0 && tlen(s.tokens@[0]) > 0 && spec_is_upper(
        s.tokens@[0].text@[0],
    )
}

/// The errors of one autocorrect pass, and whether to try again with the
/// first letter lowered.
pub struct AutocorrectResult {
    /// The errors found.
    pub errors: Vec<GrammarError>,
    /// The sentence should be tried again with its first letter lowered.
    pub need_lowering: bool,
}

/// The offsets that the errors are computed with fit a `usize`.
pub open spec fn input_fits(s: GrammarSentence, inp: InputView) -> bool {
    &&& s.pos + inp.2.last() + inp.0.len() <= usize::MAX
    &&& inp.2.len() == inp.3.len()
    &&& inp.2.len() > 0
    &&& forall|n: int| 0 <= n < inp.2.len() ==> 0 <= #[trigger] inp.2[n] <= inp.2.last()
    &&& forall|n: int| 0 <= n < inp.3.len() ==> 0 <= #[trigger] inp.3[n] <= inp.0.len()
    &&& forall|j: int| 0 <= j < inp.1.len() ==> 0 <= (#[trigger] inp.1[j]).0 <= inp.0.len() && 0 <= inp.1[j].1
        <= inp.2.last()
}

/// Each answer matches no more than the text from its word on.
pub open spec fn answers_fit(inp: InputView, answers: Seq<Option<(Seq<char>, int)>>) -> bool {
    forall|j: int|
        0 <= j < answers.len() && j < inp.1.len() ==> (#[trigger] answers[j] matches Some(m) ==> m.1 <= inp.0.len()
            - inp.1[j].0)
}

/// The length correction of a match (see `length_correction_from`).
fn length_correction(orig: &Vec<usize>, norm: &Vec<usize>, start: usize, plen: usize, bound: Ghost<int>) -> (r: usize)
    requires
        orig@.len() == norm@.len(),
        start + plen <= usize::MAX,
        forall|n: int| 0 <= n < orig@.len() ==> #[trigger] orig@[n] <= bound@,
    ensures
        r == length_correction_from(offsets_view(orig@), offsets_view(norm@), 0, start as int, plen as int, 0),
        r <= bound@ || r == 0,
{
    let ghost ov = offsets_view(orig@);
    let ghost nv = offsets_view(norm@);
    let ghost total = length_correction_from(ov, nv, 0, start as int, plen as int, 0);
    let mut lc: usize = 0;
    let mut n: usize = 0;
    while n < orig.len()
        invariant
            ov == offsets_view(orig@),
            nv == offsets_view(norm@),
            orig@.len() == norm@.len(),
            start + plen <= usize::MAX,
            forall|m: int| 0 <= m < orig@.len() ==> #[trigger] orig@[m] <= bound@,
            n <= orig@.len(),
            lc <= bound@ || lc == 0,
            total == length_correction_from(ov, nv, 0, start as int, plen as int, 0),
            length_correction_from(ov, nv, n as int, start as int, plen as int, lc as int) == total,
        decreases orig.len() - n,
    {
        let o = orig[n];
        let np = norm[n];
        let ghost lc0 = lc as int;
        assert(ov[n as int] == o && nv[n as int] == np);
        if o <= start {
            lc = if o >= np {
                o - np
            } else {
                0
            };
        }
        if np > start + plen {
            if n > 0 {
                let po = orig[n - 1];
                let pn = norm[n - 1];
                assert(ov[n - 1] == po && nv[n - 1] == pn);
                let prev: usize = if po >= pn {
                    po - pn
                } else {
                    0
                };
                lc = if prev >= lc {
                    prev - lc
                } else {
                    0
                };
            }
            assert(length_correction_from(ov, nv, n as int, start as int, plen as int, lc0) == lc);
            return lc;
        }
        assert(length_correction_from(ov, nv, n as int, start as int, plen as int, lc0) == length_correction_from(
            ov,
            nv,
            n + 1,
            start as int,
            plen as int,
            lc as int,
        ));
        n += 1;
    }
    lc
}

/// Whether a token boundary lies at the text offset `target`.
fn boundary_at(norm: &Vec<usize>, target: usize) -> (r: bool)
    ensures
        r == exists|p: int| 0 <= p < norm@.len() && target as int == #[trigger] offsets_view(norm@)[p],
{
    let mut p: usize = 0;
    while p < norm.len()
        invariant
            p <= norm@.len(),
            forall|q: int| 0 <= q < p ==> target as int != #[trigger] offsets_view(norm@)[q],
        decreases norm.len() - p,
    {
        if norm[p] == target {
            assert(target as int == offsets_view(norm@)[p as int]);
            return true;
        }
        p += 1;
    }
    false
}

/// The suggestion of a match: the corrected text, its first letter raised
/// when the sentence's first letter was lowered.
fn suggestion_text(out: &String, lower_first: bool) -> (r: Vec<char>)
    ensures
        r@ == (if lower_first && out@.len() > 0 {
            out@.update(0, uppercase_of(out@[0]))
        } else {
            out@
        }),
{
    let mut chars = str_to_chars(out.as_str());
    if lower_first && chars.len() > 0 {
        chars[0] = simple_upper(chars[0]);
    }
    chars
}

/// The errors of an autocorrect pass from the transducer's answers, one
/// for each of the first `lookup_count` words: the corrected text and the
/// length of the matched prefix, or `None` for no match.
pub fn autocorrect_errors(
    sentence: &GrammarSentence,
    input: &AutocorrectInput,
    lower_first: bool,
    answers: &[Option<(String, usize)>],
) -> (r: AutocorrectResult)
    requires
        input_fits(*sentence, input_view(*input)),
        answers@.len() == consulted_from(pairs_view(input.lookups@), 0, lower_first),
        answers_fit(input_view(*input), answers_view(answers@)),
    ensures
        (errors_view(r.errors@), r.need_lowering) == autocorrect_from(
            *sentence,
            input_view(*input),
            lower_first,
            answers_view(answers@),
            0,
            Seq::empty(),
            false,
        ),
{
    let ghost inp = input_view(*input);
    let ghost av = answers_view(answers@);
    let ghost total = autocorrect_from(*sentence, inp, lower_first, av, 0, Seq::empty(), false);
    let mut errors: Vec<GrammarError> = Vec::new();
    let mut need = false;
    let mut j: usize = 0;
    assert(errors_view(errors@) =~= Seq::<ErrorView>::empty());
    while j < input.lookups.len()
        invariant
            inp == input_view(*input),
            av == answers_view(answers@),
            input_fits(*sentence, inp),
            answers@.len() == consulted_from(pairs_view(input.lookups@), 0, lower_first),
            answers_fit(inp, av),
            j <= input.lookups@.len(),
            total == autocorrect_from(*sentence, inp, lower_first, av, 0, Seq::empty(), false),
            consulted_from(pairs_view(input.lookups@), j as int, lower_first) == consulted_from(pairs_view(input.lookups@), 0, lower_first),
            autocorrect_from(*sentence, inp, lower_first, av, j as int, errors_view(errors@), need) == total,
        decreases input.lookups.len() - j,
    {
        let (position, ucs) = input.lookups[j];
        assert(inp.1[j as int] == (position as int, ucs as int));
        if lower_first && position > 0 {
            assert(autocorrect_from(*sentence, inp, lower_first, av, j as int, errors_view(errors@), need) == (
            errors_view(errors@), need));
            return AutocorrectResult { errors, need_lowering: need };
        }
        proof {
            lemma_consulted_ge(pairs_view(input.lookups@), j + 1, lower_first);
        }
        assert(j < answers@.len());
        assert(av[j as int] == match answers@[j as int] {
            Some((s, n)) => Some((s@, n as int)),
            None => None,
        });
        let ghost before = errors_view(errors@);
        match &answers[j] {
            Some((out, plen)) => {
                if *plen > 0 {
                    assert(av[j as int] matches Some(m) && m.1 == *plen as int);
                    let target = ucs + *plen;
                    if boundary_at(&input.text_positions, target) {
                        let start = sentence.pos + ucs;
                        proof {
                            assert forall|n: int| 0 <= n < input.sentence_positions@.len() implies #[trigger] input.sentence_positions@[n] <= inp.2.last() by {
                                assert(inp.2[n] == input.sentence_positions@[n]);
                            }
                        }
                        let lc = length_correction(
                            &input.sentence_positions,
                            &input.text_positions,
                            start,
                            *plen,
                            Ghost(inp.2.last()),
                        );
                        let sug = suggestion_text(out, lower_first);
                        let e = error_suggesting_chars(GCERR_INVALID_SPELLING, start, *plen + lc, sug.as_slice());
                        push_error(&mut errors, e);
                    }
                } else {
                    if !lower_first && position == 0 && sentence.tokens.len() > 0 && sentence.tokens[0].text.len() > 0
                        && is_upper(sentence.tokens[0].text[0]) {
                        need = true;
                    }
                }
            },
            None => {
                if !lower_first && position == 0 && sentence.tokens.len() > 0 && sentence.tokens[0].text.len() > 0
                    && is_upper(sentence.tokens[0].text[0]) {
                    need = true;
                }
            },
        }
        j += 1;
    }
    proof {
        if j >= input.lookups.len() {
            assert(autocorrect_from(*sentence, inp, lower_first, av, j as int, errors_view(errors@), need) == (
            errors_view(errors@), need));
        }
    }
    AutocorrectResult { errors, need_lowering: need }
}

/// The errors of the autocorrect check of a sentence from its passes: those
/// of the first pass, followed by those of the pass with the first letter
/// lowered when the first pass asks for that pass (`lowered` is its
/// result, if it was made).
pub fn autocorrect_passes(first: AutocorrectResult, lowered: Option<AutocorrectResult>) -> (r: Vec<
    GrammarError,
>)
    ensures
        r@ == first.errors@ + if first.need_lowering && lowered is Some {
            lowered->0.errors@
        } else {
            Seq::empty()
        },
{
    let mut errors = first.errors;
    if first.need_lowering {
        match lowered {
            Some(second) => {
                let mut more = second.errors;
                errors.append(&mut more);
            },
            None => {
                assert(errors@ =~= errors@ + Seq::<GrammarError>::empty());
            },
        }
    } else {
        assert(errors@ =~= errors@ + Seq::<GrammarError>::empty());
    }
    errors
}

} // verus!
