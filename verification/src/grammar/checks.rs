//! The Finnish grammar rules: punctuation, quotations, repeated words,
//! verbs, conjunctions and capitalization.

use vstd::prelude::*;
use crate::character::{
    spec_is_finnish_quotation_mark, is_finnish_quotation_mark, spec_is_ascii_digit, is_ascii_digit,
    spec_equals_ignore_case, equals_ignore_case, spec_is_lower, is_lower,
};
use crate::enums::TokenType;
use crate::grammar::paragraph::{FollowingVerbType, GrammarSentence, GrammarToken, Paragraph};
use crate::grammar_error::{
    GrammarError, error_view, errors_view, GCERR_A_INFINITIVE_REQUIRED, GCERR_EXTRA_COMMA,
    GCERR_EXTRA_MAIN_VERB, GCERR_EXTRA_WHITESPACE, GCERR_FOREIGN_QUOTATION_MARK,
    GCERR_INVALID_PUNCTUATION_AT_END_OF_QUOTATION, GCERR_INVALID_SENTENCE_STARTER,
    GCERR_MA_INFINITIVE_REQUIRED, GCERR_MISPLACED_SIDESANA, GCERR_MISSING_MAIN_VERB,
    GCERR_NEGATIVE_VERB_MISMATCH, GCERR_REPEATING_WORD, GCERR_SPACE_BEFORE_PUNCTUATION,
    GCERR_TERMINATING_PUNCTUATION_MISSING,
};
use crate::text::{chars_eq, chars_eq_str, chars_to_string, has_prefix};

verus! {

/// A paragraph as the rules see it.
pub type GrammarParagraph = Paragraph;

/// A grammar error as plain values.
pub type ErrorView = (i32, int, int, Seq<Seq<char>>);

/// Settings that some rules read.
#[derive(Debug, Clone, Copy)]
pub struct GrammarOptions {
    /// Accept incomplete sentences in titles.
    pub accept_titles_in_gc: bool,
    /// Accept incomplete sentences at the end of a paragraph.
    pub accept_unfinished_paragraphs_in_gc: bool,
    /// Accept paragraphs that are items of a bulleted list.
    pub accept_bulleted_lists_in_gc: bool,
}

impl Default for GrammarOptions {
    fn default() -> (r: Self)
        ensures
            !r.accept_titles_in_gc,
            !r.accept_unfinished_paragraphs_in_gc,
            !r.accept_bulleted_lists_in_gc,
    {
        GrammarOptions {
            accept_titles_in_gc: false,
            accept_unfinished_paragraphs_in_gc: false,
            accept_bulleted_lists_in_gc: false,
        }
    }
}

/// The first character of a token, if it has one.
pub open spec fn first_char(t: GrammarToken) -> Option<char> {
    if t.text@.len() > 0 {
        Some(t.text@[0])
    } else {
        None
    }
}

/// The first character of a token, or NUL for an empty one.
pub open spec fn first_or_nul(t: GrammarToken) -> char {
    if t.text@.len() > 0 {
        t.text@[0]
    } else {
        '\0'
    }
}

/// Number of characters of a token.
pub open spec fn tlen(t: GrammarToken) -> int {
    t.text@.len() as int
}

/// The spans that the rules measure fit a `usize`: every token ends at an
/// offset a `usize` holds, and a later token does not end before an
/// earlier one starts, nor before the sentence starts. Paragraph analysis
/// gives consecutive tokens, which have this property.
pub open spec fn spans_fit(s: GrammarSentence) -> bool {
    let ts = s.tokens@;
    &&& forall|k: int| 0 <= k < ts.len() ==> #[trigger] tend(ts[k]) <= usize::MAX
    &&& forall|j: int, k: int| 0 <= j < k < ts.len() ==> #[trigger] ts[j].pos <= #[trigger] tend(ts[k])
    &&& forall|k: int| 0 <= k < ts.len() ==> s.pos <= #[trigger] tend(ts[k])
}

/// The offset just after a token.
pub open spec fn tend(t: GrammarToken) -> int {
    t.pos + tlen(t)
}

/// Any three consecutive tokens hold together a number of characters that
/// a `usize` holds.
pub open spec fn windows_fit(ts: Seq<GrammarToken>) -> bool {
    forall|k: int| 0 <= k && k + 2 < ts.len() ==> tlen(#[trigger] ts[k]) + tlen(ts[k + 1]) + tlen(ts[k + 2]) <= usize::MAX
}

pub(crate) fn first_of(t: &GrammarToken) -> (r: Option<char>)
    ensures
        r == first_char(*t),
{
    if t.text.len() > 0 {
        Some(t.text[0])
    } else {
        None
    }
}

pub(crate) fn first_or_nul_of(t: &GrammarToken) -> (r: char)
    ensures
        r == first_or_nul(*t),
{
    if t.text.len() > 0 {
        t.text[0]
    } else {
        '\0'
    }
}

/// Append an error to a list.
pub(crate) fn push_error(errors: &mut Vec<GrammarError>, e: GrammarError)
    ensures
        errors_view(final(errors)@) == errors_view(old(errors)@).push(error_view(e)),
{
    errors.push(e);
    assert(errors_view(errors@) =~= errors_view(old(errors)@).push(error_view(e)));
}

/// An error with one suggestion.
fn error_suggesting(code: i32, start: usize, len: usize, suggestion: &str) -> (r: GrammarError)
    ensures
        error_view(r) == (code, start as int, len as int, seq![suggestion@]),
{
    let mut v: Vec<String> = Vec::new();
    v.push(String::from_str(suggestion));
    let r = GrammarError::with_suggestions(code, start, len, v);
    assert(error_view(r).3 =~= seq![suggestion@]);
    r
}

/// An error with one suggestion given by its characters.
pub(crate) fn error_suggesting_chars(code: i32, start: usize, len: usize, suggestion: &[char]) -> (r: GrammarError)
    ensures
        error_view(r) == (code, start as int, len as int, seq![suggestion@]),
{
    let mut v: Vec<String> = Vec::new();
    v.push(chars_to_string(suggestion));
    let r = GrammarError::with_suggestions(code, start, len, v);
    assert(error_view(r).3 =~= seq![suggestion@]);
    r
}

proof fn lemma_push_concat(a: Seq<ErrorView>, x: ErrorView, b: Seq<ErrorView>)
    ensures
        a.push(x) + b == a + (seq![x] + b),
{
    assert(a.push(x) + b =~= a + (seq![x] + b));
}

// ---------------------------------------------------------------------------
// Punctuation and whitespace within a sentence
// ---------------------------------------------------------------------------

/// Characters that may start a sentence as punctuation.
pub open spec fn allowed_sentence_starter(c: char) -> bool {
    c == '(' || c == ')' || c == '\'' || c == '-' || c == '\u{201C}' || c == '\u{2013}' || c == '\u{2014}'
        || spec_is_finnish_quotation_mark(c)
}

/// The punctuation and whitespace errors from token `i` on: whitespace of
/// more than one character; a space before a comma; punctuation that
/// cannot start a sentence; two commas. A footnote mark `[N]` is skipped.
pub open spec fn local_punctuation_from(ts: Seq<GrammarToken>, i: int) -> Seq<ErrorView>
    decreases ts.len() - i,
{
    if i < 0 || i >= ts.len() {
        Seq::empty()
    } else {
        let t = ts[i];
        let n = ts.len();
        if t.token_type == TokenType::Whitespace {
            (if tlen(t) > 1 {
                seq![(GCERR_EXTRA_WHITESPACE, t.pos as int, tlen(t), seq![" "@])]
            } else if i + 1 < n && ts[i + 1].token_type == TokenType::Punctuation && first_char(ts[i + 1])
                == Some(',') {
                seq![(GCERR_SPACE_BEFORE_PUNCTUATION, t.pos as int, 2int, seq![","@])]
            } else {
                Seq::empty()
            }) + local_punctuation_from(ts, i + 1)
        } else if t.token_type == TokenType::Punctuation {
            if first_char(t) == Some('[') && i + 2 < n && first_char(ts[i + 2]) == Some(']') {
                local_punctuation_from(ts, i + 3)
            } else if i == 0 {
                if allowed_sentence_starter(first_or_nul(t)) {
                    local_punctuation_from(ts, 1)
                } else {
                    seq![
                        (GCERR_INVALID_SENTENCE_STARTER, if t.pos == 0 {
                            0int
                        } else {
                            t.pos - 1
                        }, if t.pos == 0 {
                            1int
                        } else {
                            2int
                        }, Seq::<Seq<char>>::empty()),
                    ] + local_punctuation_from(ts, 1)
                }
            } else {
                (if first_char(t) == Some(',') && i + 1 < n && ts[i + 1].token_type == TokenType::Punctuation
                    && first_char(ts[i + 1]) == Some(',') {
                    seq![(GCERR_EXTRA_COMMA, t.pos as int, 2int, seq![","@])]
                } else {
                    Seq::empty()
                }) + local_punctuation_from(ts, i + 1)
            }
        } else {
            local_punctuation_from(ts, i + 1)
        }
    }
}

/// Past the first token, the punctuation check reports no invalid sentence
/// starter.
proof fn lemma_no_starter_error_after_first(ts: Seq<GrammarToken>, i: int)
    requires
        1 <= i,
    ensures
        forall|k: int|
            0 <= k < local_punctuation_from(ts, i).len() ==> (#[trigger] local_punctuation_from(ts, i)[k]).0
                != GCERR_INVALID_SENTENCE_STARTER,
    decreases ts.len() - i,
{
    if i < ts.len() {
        let t = ts[i];
        let r = local_punctuation_from(ts, i);
        let next = if t.token_type == TokenType::Punctuation && first_char(t) == Some('[') && i + 2
            < ts.len() && first_char(ts[i + 2]) == Some(']') {
            i + 3
        } else {
            i + 1
        };
        lemma_no_starter_error_after_first(ts, next);
        let rest = local_punctuation_from(ts, next);
        let head = r.take(r.len() - rest.len());
        assert(r =~= head + rest);
        assert forall|k: int| 0 <= k < r.len() implies (#[trigger] r[k]).0 != GCERR_INVALID_SENTENCE_STARTER by {
            if k >= head.len() {
                assert(r[k] == rest[k - head.len()]);
            } else {
                assert(head.len() <= 1);
            }
        }
    }
}

/// A sentence that starts with punctuation gets an invalid-starter error
/// exactly when the first character of that punctuation is none of `(`,
/// `)`, apostrophe, `-`, U+201C, en dash, em dash and the Finnish quotation
/// marks `"`, U+00BB, U+201D (a footnote mark `[` aside).
pub proof fn lemma_sentence_starter(ts: Seq<GrammarToken>)
    requires
        ts.len() > 0,
        ts[0].token_type == TokenType::Punctuation,
        ts[0].text@.len() > 0,
        ts[0].text@[0] != '[',
    ensures
        (exists|k: int|
            0 <= k < local_punctuation_from(ts, 0).len() && (#[trigger] local_punctuation_from(ts, 0)[k]).0
                == GCERR_INVALID_SENTENCE_STARTER) <==> !({
            let c = ts[0].text@[0];
            c == '(' || c == ')' || c == '\'' || c == '-' || c == '\u{201C}' || c == '\u{2013}' || c
                == '\u{2014}' || c == '"' || c == '\u{00BB}' || c == '\u{201D}'
        }),
{
    lemma_no_starter_error_after_first(ts, 1);
    let r = local_punctuation_from(ts, 0);
    let rest = local_punctuation_from(ts, 1);
    if r.len() > rest.len() {
        assert(r[0].0 == GCERR_INVALID_SENTENCE_STARTER);
    } else {
        assert(r =~= rest);
    }
}

/// Errors in the use of punctuation and whitespace within a sentence.
pub fn gc_local_punctuation(sentence: &GrammarSentence) -> (r: Vec<GrammarError>)
    ensures
        errors_view(r@) == local_punctuation_from(sentence.tokens@, 0),
{
    let ghost ts = sentence.tokens@;
    let tokens = &sentence.tokens;
    let count = tokens.len();
    let mut errors: Vec<GrammarError> = Vec::new();
    let mut i: usize = 0;
    while i < count
        invariant
            ts == tokens@,
            ts == sentence.tokens@,
            count == ts.len(),
            i <= count,
            errors_view(errors@) + local_punctuation_from(ts, i as int) == local_punctuation_from(ts, 0),
        decreases count - i,
    {
        let t = &tokens[i];
        let ghost before = errors_view(errors@);
        let ghost rest = local_punctuation_from(ts, i as int);
        if t.token_type == TokenType::Whitespace {
            if t.token_len() > 1 {
                let e = error_suggesting(GCERR_EXTRA_WHITESPACE, t.pos, t.token_len(), " ");
                push_error(&mut errors, e);
                proof {
                    lemma_push_concat(before, error_view(e), local_punctuation_from(ts, i + 1));
                }
            } else if i + 1 < count && tokens[i + 1].token_type == TokenType::Punctuation && first_of(
                &tokens[i + 1],
            ) == Some(',') {
                let e = error_suggesting(GCERR_SPACE_BEFORE_PUNCTUATION, t.pos, 2, ",");
                push_error(&mut errors, e);
                proof {
                    lemma_push_concat(before, error_view(e), local_punctuation_from(ts, i + 1));
                }
            } else {
                assert(rest == Seq::<ErrorView>::empty() + local_punctuation_from(ts, i + 1));
                assert(Seq::<ErrorView>::empty() + local_punctuation_from(ts, i + 1) =~= local_punctuation_from(ts, i + 1));
            }
            i += 1;
        } else if t.token_type == TokenType::Punctuation {
            let c = first_of(t);
            if c == Some('[') && count - i > 2 && first_of(&tokens[i + 2]) == Some(']') {
                i += 3;
            } else if i == 0 {
                let ch = first_or_nul_of(t);
                if ch == '(' || ch == ')' || ch == '\'' || ch == '-' || ch == '\u{201C}' || ch == '\u{2013}'
                    || ch == '\u{2014}' || is_finnish_quotation_mark(ch) {
                    i += 1;
                } else {
                    let (start, len): (usize, usize) = if t.pos == 0 {
                        (0, 1)
                    } else {
                        (t.pos - 1, 2)
                    };
                    let e = GrammarError::new(GCERR_INVALID_SENTENCE_STARTER, start, len);
                    push_error(&mut errors, e);
                    proof {
                        lemma_push_concat(before, error_view(e), local_punctuation_from(ts, 1));
                    }
                    i += 1;
                }
            } else {
                if c == Some(',') && i + 1 < count && tokens[i + 1].token_type == TokenType::Punctuation
                    && first_of(&tokens[i + 1]) == Some(',') {
                    let e = error_suggesting(GCERR_EXTRA_COMMA, t.pos, 2, ",");
                    push_error(&mut errors, e);
                    proof {
                        lemma_push_concat(before, error_view(e), local_punctuation_from(ts, i + 1));
                    }
                } else {
                    assert(Seq::<ErrorView>::empty() + local_punctuation_from(ts, i + 1) =~= local_punctuation_from(ts, i + 1));
                }
                i += 1;
            }
        } else {
            i += 1;
        }
    }
    proof {
        assert(errors_view(errors@) + Seq::<ErrorView>::empty() =~= errors_view(errors@));
    }
    errors
}

// ---------------------------------------------------------------------------
// Punctuation around quotations
// ---------------------------------------------------------------------------

/// The quotation errors from token `i` on: a foreign opening quotation
/// mark stops the check; a sentence end before a closing quotation mark
/// followed by a comma is wrongly ordered.
pub open spec fn quotations_from(ts: Seq<GrammarToken>, i: int) -> Seq<ErrorView>
    decreases ts.len() - i,
{
    if i < 0 || i + 2 >= ts.len() {
        Seq::empty()
    } else if ts[i].token_type != TokenType::Punctuation {
        quotations_from(ts, i + 1)
    } else {
        let ch = first_or_nul(ts[i]);
        let q = first_or_nul(ts[i + 1]);
        if ch == '\u{201C}' {
            seq![(GCERR_FOREIGN_QUOTATION_MARK, ts[i].pos as int, 1int, seq!["\u{201D}"@])]
        } else if ts[i + 1].token_type != TokenType::Punctuation || !spec_is_finnish_quotation_mark(q)
            || ts[i + 2].token_type != TokenType::Punctuation || first_char(ts[i + 2]) != Some(',') {
            quotations_from(ts, i + 1)
        } else if ch == '.' {
            seq![(GCERR_INVALID_PUNCTUATION_AT_END_OF_QUOTATION, ts[i].pos as int, 3int, seq![seq![q, ',']])]
                + quotations_from(ts, i + 1)
        } else if ch == '!' || ch == '?' {
            seq![(GCERR_INVALID_PUNCTUATION_AT_END_OF_QUOTATION, ts[i].pos as int, 3int, seq![seq![ch, q]])]
                + quotations_from(ts, i + 1)
        } else {
            quotations_from(ts, i + 1)
        }
    }
}

/// Errors in punctuation at quotations.
pub fn gc_punctuation_of_quotations(sentence: &GrammarSentence) -> (r: Vec<GrammarError>)
    ensures
        errors_view(r@) == quotations_from(sentence.tokens@, 0),
{
    let ghost ts = sentence.tokens@;
    let tokens = &sentence.tokens;
    let count = tokens.len();
    let mut errors: Vec<GrammarError> = Vec::new();
    let mut i: usize = 0;
    while i < count && count - i > 2
        invariant
            ts == tokens@,
            ts == sentence.tokens@,
            count == ts.len(),
            i <= count,
            errors_view(errors@) + quotations_from(ts, i as int) == quotations_from(ts, 0),
        decreases count - i,
    {
        let ghost before = errors_view(errors@);
        if tokens[i].token_type != TokenType::Punctuation {
            i += 1;
            continue;
        }
        let ch = first_or_nul_of(&tokens[i]);
        if ch == '\u{201C}' {
            let e = error_suggesting(GCERR_FOREIGN_QUOTATION_MARK, tokens[i].pos, 1, "\u{201D}");
            push_error(&mut errors, e);
            assert(errors_view(errors@) =~= before + quotations_from(ts, i as int));
            return errors;
        }
        let q = first_or_nul_of(&tokens[i + 1]);
        if tokens[i + 1].token_type != TokenType::Punctuation || !is_finnish_quotation_mark(q)
            || tokens[i + 2].token_type != TokenType::Punctuation || first_of(&tokens[i + 2]) != Some(',') {
            i += 1;
            continue;
        }
        if ch == '.' {
            let mut sug: Vec<char> = Vec::new();
            sug.push(q);
            sug.push(',');
            assert(sug@ =~= seq![q, ',']);
            let e = error_suggesting_chars(GCERR_INVALID_PUNCTUATION_AT_END_OF_QUOTATION, tokens[i].pos, 3, sug.as_slice());
            push_error(&mut errors, e);
            proof {
                lemma_push_concat(before, error_view(e), quotations_from(ts, i + 1));
            }
        } else if ch == '!' || ch == '?' {
            let mut sug: Vec<char> = Vec::new();
            sug.push(ch);
            sug.push(q);
            assert(sug@ =~= seq![ch, q]);
            let e = error_suggesting_chars(GCERR_INVALID_PUNCTUATION_AT_END_OF_QUOTATION, tokens[i].pos, 3, sug.as_slice());
            push_error(&mut errors, e);
            proof {
                lemma_push_concat(before, error_view(e), quotations_from(ts, i + 1));
            }
        }
        i += 1;
    }
    proof {
        assert(errors_view(errors@) + Seq::<ErrorView>::empty() =~= errors_view(errors@));
    }
    errors
}

// ---------------------------------------------------------------------------
// Repeated words
// ---------------------------------------------------------------------------

/// Words that may stand twice in a row.
pub open spec fn may_repeat(w: Seq<char>) -> bool {
    w == "ollut"@ || w == "olleet"@ || w == "sill\u{e4}"@
}

/// The repeated-word errors from token `i` on: a word, a whitespace, and
/// the same word again (ignoring case), unless it starts with a digit or
/// may stand twice.
pub open spec fn repeating_from(ts: Seq<GrammarToken>, i: int) -> Seq<ErrorView>
    decreases ts.len() - i,
{
    if i < 0 || i + 2 >= ts.len() {
        Seq::empty()
    } else if ts[i].token_type != TokenType::Word {
        repeating_from(ts, i + 1)
    } else if ts[i + 1].token_type != TokenType::Whitespace {
        repeating_from(ts, i + 2)
    } else if ts[i + 2].token_type != TokenType::Word {
        repeating_from(ts, i + 3)
    } else if !spec_equals_ignore_case(ts[i].text@, ts[i + 2].text@) || (tlen(ts[i]) > 0
        && spec_is_ascii_digit(ts[i].text@[0])) || may_repeat(ts[i].text@) {
        repeating_from(ts, i + 1)
    } else {
        seq![
            (GCERR_REPEATING_WORD, ts[i].pos as int, tlen(ts[i]) + tlen(ts[i + 1]) + tlen(ts[i + 2]), seq![
                ts[i].text@,
            ]),
        ] + repeating_from(ts, i + 1)
    }
}

/// Errors for a word repeated right after itself.
pub fn gc_repeating_words(sentence: &GrammarSentence) -> (r: Vec<GrammarError>)
    requires
        windows_fit(sentence.tokens@),
    ensures
        errors_view(r@) == repeating_from(sentence.tokens@, 0),
{
    let ghost ts = sentence.tokens@;
    let tokens = &sentence.tokens;
    let count = tokens.len();
    let mut errors: Vec<GrammarError> = Vec::new();
    let mut i: usize = 0;
    while i < count && count - i > 2
        invariant
            ts == tokens@,
            ts == sentence.tokens@,
            count == ts.len(),
            windows_fit(ts),
            i <= count,
            errors_view(errors@) + repeating_from(ts, i as int) == repeating_from(ts, 0),
        decreases count - i,
    {
        let ghost before = errors_view(errors@);
        if tokens[i].token_type != TokenType::Word {
            i += 1;
            continue;
        }
        if tokens[i + 1].token_type != TokenType::Whitespace {
            i += 2;
            continue;
        }
        if tokens[i + 2].token_type != TokenType::Word {
            i += 3;
            continue;
        }
        let w = &tokens[i];
        let skip = !equals_ignore_case(w.text.as_slice(), tokens[i + 2].text.as_slice()) || (w.text.len() > 0
            && is_ascii_digit(w.text[0])) || chars_eq_str(w.text.as_slice(), "ollut") || chars_eq_str(
            w.text.as_slice(),
            "olleet",
        ) || chars_eq_str(w.text.as_slice(), "sill\u{e4}");
        if !skip {
            assert(tlen(ts[i as int]) + tlen(ts[i + 1]) + tlen(ts[i + 2]) <= usize::MAX);
            let len = w.token_len() + tokens[i + 1].token_len() + tokens[i + 2].token_len();
            let e = error_suggesting_chars(GCERR_REPEATING_WORD, w.pos, len, w.text.as_slice());
            push_error(&mut errors, e);
            proof {
                lemma_push_concat(before, error_view(e), repeating_from(ts, i + 1));
            }
        }
        i += 1;
    }
    proof {
        assert(errors_view(errors@) + Seq::<ErrorView>::empty() =~= errors_view(errors@));
    }
    errors
}

// ---------------------------------------------------------------------------
// Punctuation at the end of a paragraph
// ---------------------------------------------------------------------------

/// The error for a paragraph that does not end with punctuation, unless
/// the settings accept titles (one sentence), unfinished paragraphs or list
/// items.
pub open spec fn end_punctuation_errors(p: Paragraph, opts: GrammarOptions) -> Seq<ErrorView> {
    let ss = p.sentences@;
    if (opts.accept_titles_in_gc && ss.len() == 1) || opts.accept_unfinished_paragraphs_in_gc
        || opts.accept_bulleted_lists_in_gc || ss.len() == 0 || ss.last().tokens@.len() == 0 {
        Seq::empty()
    } else {
        let t = ss.last().tokens@.last();
        if t.token_type == TokenType::Punctuation {
            Seq::empty()
        } else {
            seq![(GCERR_TERMINATING_PUNCTUATION_MISSING, t.pos as int, tlen(t), Seq::<Seq<char>>::empty())]
        }
    }
}

/// The error for missing punctuation at the end of a paragraph.
pub fn gc_end_punctuation(paragraph: &Paragraph, options: &GrammarOptions) -> (r: Vec<GrammarError>)
    ensures
        errors_view(r@) == end_punctuation_errors(*paragraph, *options),
{
    let mut errors: Vec<GrammarError> = Vec::new();
    let n = paragraph.sentences.len();
    if (options.accept_titles_in_gc && n == 1) || options.accept_unfinished_paragraphs_in_gc
        || options.accept_bulleted_lists_in_gc || n == 0 {
        assert(errors_view(errors@) =~= Seq::<ErrorView>::empty());
        return errors;
    }
    let last = &paragraph.sentences[n - 1];
    let m = last.tokens.len();
    if m == 0 {
        assert(errors_view(errors@) =~= Seq::<ErrorView>::empty());
        return errors;
    }
    let t = &last.tokens[m - 1];
    if t.token_type == TokenType::Punctuation {
        assert(errors_view(errors@) =~= Seq::<ErrorView>::empty());
        return errors;
    }
    let e = GrammarError::new(GCERR_TERMINATING_PUNCTUATION_MISSING, t.pos, t.token_len());
    push_error(&mut errors, e);
    assert(errors_view(errors@) =~= end_punctuation_errors(*paragraph, *options));
    errors
}

// ---------------------------------------------------------------------------
// Verbs after a negative verb, and infinitives in compound verbs
// ---------------------------------------------------------------------------

/// A word, a whitespace and a word start at token `i`.
pub open spec fn word_pair_at(ts: Seq<GrammarToken>, i: int) -> bool {
    0 <= i && i + 2 < ts.len() && ts[i].token_type == TokenType::Word && ts[i + 1].token_type
        == TokenType::Whitespace && ts[i + 2].token_type == TokenType::Word
}

/// The span from the start of token `i` to the end of token `i + 2`.
pub open spec fn pair_span(ts: Seq<GrammarToken>, i: int) -> int {
    tend(ts[i + 2]) - ts[i].pos
}

/// The errors from token `i` on for a negative verb followed by a verb
/// that can only be positive ("en syön" for "en syö").
pub open spec fn negative_verb_from(ts: Seq<GrammarToken>, i: int) -> Seq<ErrorView>
    decreases ts.len() - i,
{
    if i < 0 || i + 2 >= ts.len() {
        Seq::empty()
    } else {
        (if word_pair_at(ts, i) && ts[i].is_verb_negative && ts[i + 2].is_positive_verb {
            seq![(GCERR_NEGATIVE_VERB_MISMATCH, ts[i].pos as int, pair_span(ts, i), Seq::<Seq<char>>::empty())]
        } else {
            Seq::empty()
        }) + negative_verb_from(ts, i + 1)
    }
}

/// Errors for a positive verb form after a negative verb.
pub fn gc_negative_verb_mismatch(sentence: &GrammarSentence) -> (r: Vec<GrammarError>)
    requires
        spans_fit(*sentence),
    ensures
        errors_view(r@) == negative_verb_from(sentence.tokens@, 0),
{
    let ghost ts = sentence.tokens@;
    let tokens = &sentence.tokens;
    let count = tokens.len();
    let mut errors: Vec<GrammarError> = Vec::new();
    let mut i: usize = 0;
    while i < count && count - i > 2
        invariant
            ts == tokens@,
            ts == sentence.tokens@,
            count == ts.len(),
            spans_fit(*sentence),
            i <= count,
            errors_view(errors@) + negative_verb_from(ts, i as int) == negative_verb_from(ts, 0),
        decreases count - i,
    {
        let ghost before = errors_view(errors@);
        let t = &tokens[i];
        if t.token_type == TokenType::Word && tokens[i + 1].token_type == TokenType::Whitespace
            && tokens[i + 2].token_type == TokenType::Word && t.is_verb_negative
            && tokens[i + 2].is_positive_verb {
            let w2 = &tokens[i + 2];
            assert(ts[i as int].pos <= tend(ts[i + 2]));
            assert(tend(ts[i + 2]) <= usize::MAX);
            let e = GrammarError::new(GCERR_NEGATIVE_VERB_MISMATCH, t.pos, w2.pos + w2.token_len() - t.pos);
            push_error(&mut errors, e);
            proof {
                lemma_push_concat(before, error_view(e), negative_verb_from(ts, i + 1));
            }
        } else {
            assert(Seq::<ErrorView>::empty() + negative_verb_from(ts, i + 1) =~= negative_verb_from(ts, i + 1));
        }
        i += 1;
    }
    proof {
        assert(errors_view(errors@) + Seq::<ErrorView>::empty() =~= errors_view(errors@));
    }
    errors
}

/// The errors from token `i` on for a verb followed by the wrong
/// infinitive: an A-infinitive required but a MA-infinitive given, or the
/// other way round.
pub open spec fn compound_verb_from(ts: Seq<GrammarToken>, i: int) -> Seq<ErrorView>
    decreases ts.len() - i,
{
    if i < 0 || i + 2 >= ts.len() {
        Seq::empty()
    } else {
        (if word_pair_at(ts, i) && ts[i].require_following_verb == FollowingVerbType::AInfinitive && ts[i
            + 2].verb_follower_type == FollowingVerbType::MaInfinitive {
            seq![(GCERR_A_INFINITIVE_REQUIRED, ts[i].pos as int, pair_span(ts, i), Seq::<Seq<char>>::empty())]
        } else if word_pair_at(ts, i) && ts[i].require_following_verb == FollowingVerbType::MaInfinitive
            && ts[i + 2].verb_follower_type == FollowingVerbType::AInfinitive {
            seq![(GCERR_MA_INFINITIVE_REQUIRED, ts[i].pos as int, pair_span(ts, i), Seq::<Seq<char>>::empty())]
        } else {
            Seq::empty()
        }) + compound_verb_from(ts, i + 1)
    }
}

/// Errors for the wrong infinitive after a verb that requires one.
pub fn gc_compound_verb(sentence: &GrammarSentence) -> (r: Vec<GrammarError>)
    requires
        spans_fit(*sentence),
    ensures
        errors_view(r@) == compound_verb_from(sentence.tokens@, 0),
{
    let ghost ts = sentence.tokens@;
    let tokens = &sentence.tokens;
    let count = tokens.len();
    let mut errors: Vec<GrammarError> = Vec::new();
    let mut i: usize = 0;
    while i < count && count - i > 2
        invariant
            ts == tokens@,
            ts == sentence.tokens@,
            count == ts.len(),
            spans_fit(*sentence),
            i <= count,
            errors_view(errors@) + compound_verb_from(ts, i as int) == compound_verb_from(ts, 0),
        decreases count - i,
    {
        let ghost before = errors_view(errors@);
        let t = &tokens[i];
        let pair = t.token_type == TokenType::Word && tokens[i + 1].token_type == TokenType::Whitespace
            && tokens[i + 2].token_type == TokenType::Word;
        let w2 = &tokens[i + 2];
        if pair && t.require_following_verb == FollowingVerbType::AInfinitive && w2.verb_follower_type
            == FollowingVerbType::MaInfinitive {
            assert(ts[i as int].pos <= tend(ts[i + 2]));
            assert(tend(ts[i + 2]) <= usize::MAX);
            let e = GrammarError::new(GCERR_A_INFINITIVE_REQUIRED, t.pos, w2.pos + w2.token_len() - t.pos);
            push_error(&mut errors, e);
            proof {
                lemma_push_concat(before, error_view(e), compound_verb_from(ts, i + 1));
            }
        } else if pair && t.require_following_verb == FollowingVerbType::MaInfinitive && w2.verb_follower_type
            == FollowingVerbType::AInfinitive {
            assert(ts[i as int].pos <= tend(ts[i + 2]));
            assert(tend(ts[i + 2]) <= usize::MAX);
            let e = GrammarError::new(GCERR_MA_INFINITIVE_REQUIRED, t.pos, w2.pos + w2.token_len() - t.pos);
            push_error(&mut errors, e);
            proof {
                lemma_push_concat(before, error_view(e), compound_verb_from(ts, i + 1));
            }
        } else {
            assert(Seq::<ErrorView>::empty() + compound_verb_from(ts, i + 1) =~= compound_verb_from(ts, i + 1));
        }
        i += 1;
    }
    proof {
        assert(errors_view(errors@) + Seq::<ErrorView>::empty() =~= errors_view(errors@));
    }
    errors
}

// ---------------------------------------------------------------------------
// A conjunction at the end of a sentence
// ---------------------------------------------------------------------------

/// The error for a conjunction (other than "vaan") right before the final
/// period of a sentence; trailing whitespace is ignored.
pub open spec fn sidesana_errors(ts: Seq<GrammarToken>) -> Seq<ErrorView> {
    if ts.len() == 0 {
        Seq::empty()
    } else {
        let n = if ts.last().token_type == TokenType::Whitespace {
            ts.len() - 1
        } else {
            ts.len() as int
        };
        if n < 2 {
            Seq::empty()
        } else {
            let a = ts[n - 2];
            let b = ts[n - 1];
            if a.is_conjunction && a.text@ != "vaan"@ && b.token_type == TokenType::Punctuation && b.text@
                == "."@ {
                seq![(GCERR_MISPLACED_SIDESANA, a.pos as int, tlen(a), Seq::<Seq<char>>::empty())]
            } else {
                Seq::empty()
            }
        }
    }
}

/// The error for a misplaced conjunction at the end of a sentence.
pub fn gc_sidesana(sentence: &GrammarSentence) -> (r: Vec<GrammarError>)
    ensures
        errors_view(r@) == sidesana_errors(sentence.tokens@),
{
    let tokens = &sentence.tokens;
    let mut errors: Vec<GrammarError> = Vec::new();
    let mut n = tokens.len();
    if n == 0 {
        assert(errors_view(errors@) =~= Seq::<ErrorView>::empty());
        return errors;
    }
    if tokens[n - 1].token_type == TokenType::Whitespace {
        n -= 1;
    }
    if n < 2 {
        assert(errors_view(errors@) =~= Seq::<ErrorView>::empty());
        return errors;
    }
    let a = &tokens[n - 2];
    let b = &tokens[n - 1];
    if a.is_conjunction && !chars_eq_str(a.text.as_slice(), "vaan") && b.token_type == TokenType::Punctuation
        && chars_eq_str(b.text.as_slice(), ".") {
        let e = GrammarError::new(GCERR_MISPLACED_SIDESANA, a.pos, a.token_len());
        push_error(&mut errors, e);
        assert(errors_view(errors@) =~= sidesana_errors(tokens@));
    } else {
        assert(errors_view(errors@) =~= Seq::<ErrorView>::empty());
    }
    errors
}

// ---------------------------------------------------------------------------
// Missing and extra main verbs
// ---------------------------------------------------------------------------

/// The state of the scan for verbs: words seen, the last token that is not
/// whitespace (-1 for none), whether the sentence has something that may
/// be a verb, whether the current clause has a main verb, and the token
/// where that verb stands.
pub type VerbScan = (int, int, bool, bool, int);

/// Words that separate clauses without a comma: "siinä ... missä" and
/// "kävi ... miten".
pub open spec fn clause_separator_pair(ts: Seq<GrammarToken>, i: int) -> bool {
    i + 2 < ts.len() && ((has_prefix(ts[i].text@, "siin\u{e4}"@) && has_prefix(ts[i + 2].text@, "miss\u{e4}"@))
        || (has_prefix(ts[i].text@, "k\u{e4}vi"@) && has_prefix(ts[i + 2].text@, "miten"@)))
}

/// A second main verb at token `i` in the clause that has one: the span
/// from the first one, unless the same word repeats right after the first
/// (which the repeated-word rule reports).
pub open spec fn verb_step_errors(ts: Seq<GrammarToken>, i: int, st: VerbScan) -> Seq<ErrorView> {
    let t = ts[i];
    let l = st.4;
    if t.token_type == TokenType::Word && !t.possible_conjunction && !clause_separator_pair(ts, i)
        && t.is_main_verb && st.3 && !(i == l + 2 && tlen(t) == tlen(ts[l]) && ts[l].text@ == t.text@) {
        seq![(GCERR_EXTRA_MAIN_VERB, ts[l].pos as int, tend(t) - ts[l].pos, Seq::<Seq<char>>::empty())]
    } else {
        Seq::empty()
    }
}

/// The scan state after token `i`.
pub open spec fn verb_step(ts: Seq<GrammarToken>, i: int, st: VerbScan) -> VerbScan {
    let t = ts[i];
    let lnw = if t.token_type != TokenType::Whitespace {
        i
    } else {
        st.1
    };
    if t.token_type == TokenType::Word {
        let fs = st.2 || !t.is_valid_word || t.possible_main_verb || t.is_verb_negative;
        if t.possible_conjunction || clause_separator_pair(ts, i) {
            (st.0 + 1, lnw, fs, false, st.4)
        } else if t.is_main_verb {
            if st.3 {
                (st.0 + 1, lnw, fs, false, st.4)
            } else {
                (st.0 + 1, lnw, fs, true, i)
            }
        } else {
            (st.0 + 1, lnw, fs, st.3, st.4)
        }
    } else if t.token_type == TokenType::Punctuation {
        (st.0, lnw, st.2, false, st.4)
    } else {
        (st.0, lnw, st.2, st.3, st.4)
    }
}

/// The scan from token `i` on: the extra-main-verb errors, the final
/// state, and whether a tab stopped it.
pub open spec fn verb_scan_from(ts: Seq<GrammarToken>, i: int, st: VerbScan) -> (Seq<ErrorView>, VerbScan, bool)
    decreases ts.len() - i,
{
    if i < 0 || i >= ts.len() {
        (Seq::empty(), st, false)
    } else if first_char(ts[i]) == Some('\t') {
        (Seq::empty(), st, true)
    } else {
        let r = verb_scan_from(ts, i + 1, verb_step(ts, i, st));
        (verb_step_errors(ts, i, st) + r.0, r.1, r.2)
    }
}

/// The errors for extra main verbs in a clause, and for a sentence of two
/// or more words ending with `.` or `?` (not `...`) in which nothing may
/// be a verb (an unknown word may). A sentence that starts with
/// punctuation, holds a tab, or starts a list item when lists are
/// accepted, is not checked.
pub open spec fn missing_verb_errors(s: GrammarSentence, opts: GrammarOptions) -> Seq<ErrorView> {
    let ts = s.tokens@;
    if ts.len() == 0 || ts[0].token_type == TokenType::Punctuation || (opts.accept_bulleted_lists_in_gc
        && s.pos == 0 && ((tlen(ts[0]) > 0 && spec_is_lower(ts[0].text@[0])) || !ts[0].first_letter_lcase)) {
        Seq::empty()
    } else {
        let r = verb_scan_from(ts, 0, (0, -1, false, false, 0));
        let st = r.1;
        if r.2 || st.1 < 0 || st.2 || st.0 < 2 {
            r.0
        } else {
            let l = ts[st.1];
            let c = first_or_nul(l);
            if (c != '.' && c != '?') || l.text@ == "..."@ {
                r.0
            } else {
                r.0.push((GCERR_MISSING_MAIN_VERB, s.pos as int, tend(l) - s.pos, Seq::<Seq<char>>::empty()))
            }
        }
    }
}


/// Errors for missing and extra main verbs.
pub fn gc_missing_verb(sentence: &GrammarSentence, options: &GrammarOptions) -> (r: Vec<GrammarError>)
    requires
        spans_fit(*sentence),
    ensures
        errors_view(r@) == missing_verb_errors(*sentence, *options),
{
    let ghost ts = sentence.tokens@;
    let tokens = &sentence.tokens;
    let count = tokens.len();
    let mut errors: Vec<GrammarError> = Vec::new();
    if count == 0 || tokens[0].token_type == TokenType::Punctuation {
        assert(errors_view(errors@) =~= Seq::<ErrorView>::empty());
        return errors;
    }
    let first = &tokens[0];
    if options.accept_bulleted_lists_in_gc && sentence.pos == 0 && ((first.text.len() > 0 && is_lower(
        first.text[0],
    )) || !first.first_letter_lcase) {
        assert(errors_view(errors@) =~= Seq::<ErrorView>::empty());
        return errors;
    }
    let ghost total = verb_scan_from(ts, 0, (0, -1, false, false, 0));
    let mut word_count: usize = 0;
    let mut last_nw: Option<usize> = None;
    let mut found_in_sentence = false;
    let mut found_in_clause = false;
    let mut last_verb_start: usize = 0;
    let mut i: usize = 0;
    while i < count
        invariant
            ts == tokens@,
            ts == sentence.tokens@,
            count == ts.len(),
            spans_fit(*sentence),
            i <= count,
            word_count <= i,
            last_verb_start < count,
            found_in_clause ==> last_verb_start < i,
            last_nw matches Some(l) ==> l < i,
            total == verb_scan_from(ts, 0, (0, -1, false, false, 0)),
            !(ts.len() == 0 || ts[0].token_type == TokenType::Punctuation || (options.accept_bulleted_lists_in_gc
                && sentence.pos == 0 && ((tlen(ts[0]) > 0 && spec_is_lower(ts[0].text@[0])) || !ts[0].first_letter_lcase))),
            ({
                let st: VerbScan = (
                    word_count as int,
                    match last_nw {
                        Some(l) => l as int,
                        None => -1,
                    },
                    found_in_sentence,
                    found_in_clause,
                    last_verb_start as int,
                );
                let r = verb_scan_from(ts, i as int, st);
                errors_view(errors@) + r.0 == total.0 && r.1 == total.1 && r.2 == total.2
            }),
        decreases count - i,
    {
        let ghost st: VerbScan = (
            word_count as int,
            match last_nw {
                Some(l) => l as int,
                None => -1,
            },
            found_in_sentence,
            found_in_clause,
            last_verb_start as int,
        );
        let ghost before = errors_view(errors@);
        let t = &tokens[i];
        if first_of(t) == Some('\t') {
            proof {
                assert(errors_view(errors@) + Seq::<ErrorView>::empty() =~= errors_view(errors@));
            }
            return errors;
        }
        let ghost step_errs = verb_step_errors(ts, i as int, st);
        if t.token_type == TokenType::Word {
            word_count += 1;
            if !t.is_valid_word || t.possible_main_verb || t.is_verb_negative {
                found_in_sentence = true;
            }
            let separator = count - i > 2 && ((starts_with_chars(
                t.text.as_slice(),
                chars("siin\u{e4}").as_slice(),
            ) && starts_with_chars(tokens[i + 2].text.as_slice(), chars("miss\u{e4}").as_slice()))
                || (starts_with_chars(t.text.as_slice(), chars("k\u{e4}vi").as_slice())
                && starts_with_chars(tokens[i + 2].text.as_slice(), chars("miten").as_slice())));
            assert(separator == clause_separator_pair(ts, i as int));
            if t.possible_conjunction || separator {
                found_in_clause = false;
                assert(step_errs =~= Seq::<ErrorView>::empty());
            } else if t.is_main_verb {
                if found_in_clause {
                    let lv = &tokens[last_verb_start];
                    let suppress = i == last_verb_start + 2 && t.token_len() == lv.token_len() && chars_eq(
                        lv.text.as_slice(),
                        t.text.as_slice(),
                    );
                    if !suppress {
                        assert(ts[last_verb_start as int].pos <= tend(ts[i as int]));
                        assert(tend(ts[i as int]) <= usize::MAX);
                        let e = GrammarError::new(GCERR_EXTRA_MAIN_VERB, lv.pos, t.pos + t.token_len() - lv.pos);
                        push_error(&mut errors, e);
                        assert(seq![error_view(e)] =~= step_errs);
                    } else {
                        assert(step_errs =~= Seq::<ErrorView>::empty());
                    }
                    found_in_clause = false;
                } else {
                    found_in_clause = true;
                    last_verb_start = i;
                    assert(step_errs =~= Seq::<ErrorView>::empty());
                }
            } else {
                assert(step_errs =~= Seq::<ErrorView>::empty());
            }
        } else {
            if t.token_type == TokenType::Punctuation {
                found_in_clause = false;
            }
            assert(step_errs =~= Seq::<ErrorView>::empty());
        }
        if t.token_type != TokenType::Whitespace {
            last_nw = Some(i);
        }
        proof {
            let r = verb_scan_from(ts, i + 1, verb_step(ts, i as int, st));
            assert(verb_scan_from(ts, i as int, st) == (step_errs + r.0, r.1, r.2));
            assert(errors_view(errors@) =~= before + step_errs);
            assert(before + (step_errs + r.0) =~= errors_view(errors@) + r.0);
        }
        i += 1;
    }
    proof {
        assert(errors_view(errors@) + Seq::<ErrorView>::empty() =~= errors_view(errors@));
    }
    let l = match last_nw {
        Some(l) => l,
        None => {
            return errors;
        },
    };
    if found_in_sentence || word_count < 2 {
        return errors;
    }
    let lt = &tokens[l];
    let c = first_or_nul_of(lt);
    if (c != '.' && c != '?') || chars_eq_str(lt.text.as_slice(), "...") {
        return errors;
    }
    assert(sentence.pos <= tend(ts[l as int]));
    assert(tend(ts[l as int]) <= usize::MAX);
    let e = GrammarError::new(GCERR_MISSING_MAIN_VERB, sentence.pos, lt.pos + lt.token_len() - sentence.pos);
    push_error(&mut errors, e);
    errors
}

// ---------------------------------------------------------------------------
// Numbers and list items
// ---------------------------------------------------------------------------

/// Digits only, at least one.
pub open spec fn spec_is_integer(w: Seq<char>) -> bool {
    w.len() > 0 && forall|i: int| 0 <= i < w.len() ==> spec_is_ascii_digit(#[trigger] w[i])
}

/// Digits and dots, at least one character, neither starting nor ending
/// with a dot, and no two dots in a row ("3", "3.4", "3.65.3").
pub open spec fn spec_is_chapter_number(w: Seq<char>) -> bool {
    &&& w.len() > 0
    &&& forall|i: int| 0 <= i < w.len() ==> spec_is_ascii_digit(#[trigger] w[i]) || w[i] == '.'
    &&& forall|i: int| 0 <= i < w.len() && #[trigger] w[i] == '.' ==> i > 0 && w[i - 1] != '.'
    &&& w.last() != '.'
}

/// One of the letters of roman numerals `i`, `v`, `x` in either case.
pub open spec fn is_roman_letter(c: char) -> bool {
    c == 'i' || c == 'I' || c == 'v' || c == 'V' || c == 'x' || c == 'X'
}

/// Roman numeral letters only, at least one.
pub open spec fn spec_is_roman_numeral(w: Seq<char>) -> bool {
    w.len() > 0 && forall|i: int| 0 <= i < w.len() ==> is_roman_letter(#[trigger] w[i])
}

/// What may number a list item: a single character, a chapter number or a
/// roman numeral.
pub open spec fn spec_is_possible_list_item(w: Seq<char>) -> bool {
    w.len() == 1 || spec_is_chapter_number(w) || spec_is_roman_numeral(w)
}

/// Whether the word is a positive integer written with digits.
pub fn is_integer(word: &[char]) -> (r: bool)
    ensures
        r == spec_is_integer(word@),
{
    if word.len() == 0 {
        return false;
    }
    let mut i: usize = 0;
    while i < word.len()
        invariant
            i <= word@.len(),
            forall|k: int| 0 <= k < i ==> spec_is_ascii_digit(#[trigger] word@[k]),
        decreases word.len() - i,
    {
        if !is_ascii_digit(word[i]) {
            return false;
        }
        i += 1;
    }
    true
}

/// Whether the word is a chapter number such as "3.4".
pub fn is_chapter_number(word: &[char]) -> (r: bool)
    ensures
        r == spec_is_chapter_number(word@),
{
    if word.len() == 0 {
        return false;
    }
    let mut dot_last = false;
    let mut i: usize = 0;
    while i < word.len()
        invariant
            i <= word@.len(),
            word@.len() > 0,
            forall|k: int| 0 <= k < i ==> spec_is_ascii_digit(#[trigger] word@[k]) || word@[k] == '.',
            forall|k: int| 0 <= k < i && #[trigger] word@[k] == '.' ==> k > 0 && word@[k - 1] != '.',
            dot_last == (i > 0 && word@[i - 1] == '.'),
        decreases word.len() - i,
    {
        let c = word[i];
        if c == '.' {
            if i == 0 || dot_last {
                return false;
            }
            dot_last = true;
        } else if !is_ascii_digit(c) {
            return false;
        } else {
            dot_last = false;
        }
        i += 1;
    }
    !dot_last
}

/// Whether the word is made of roman numeral letters.
pub fn is_roman_numeral(word: &[char]) -> (r: bool)
    ensures
        r == spec_is_roman_numeral(word@),
{
    if word.len() == 0 {
        return false;
    }
    let mut i: usize = 0;
    while i < word.len()
        invariant
            i <= word@.len(),
            forall|k: int| 0 <= k < i ==> is_roman_letter(#[trigger] word@[k]),
        decreases word.len() - i,
    {
        let c = word[i];
        if !(c == 'i' || c == 'I' || c == 'v' || c == 'V' || c == 'x' || c == 'X') {
            return false;
        }
        i += 1;
    }
    true
}

/// Whether the word may number a list item.
pub fn is_possible_list_item(word: &[char]) -> (r: bool)
    ensures
        r == spec_is_possible_list_item(word@),
{
    word.len() == 1 || is_chapter_number(word) || is_roman_numeral(word)
}

/// The characters of a string slice, in order.
fn chars(s: &str) -> (r: Vec<char>)
    ensures
        r@ == s@,
{
    crate::text::str_to_chars(s)
}

/// Whether `text` starts with `prefix`.
fn starts_with_chars(text: &[char], prefix: &[char]) -> (r: bool)
    ensures
        r == has_prefix(text@, prefix@),
{
    if text.len() < prefix.len() {
        return false;
    }
    let mut k: usize = 0;
    while k < prefix.len()
        invariant
            prefix@.len() <= text@.len(),
            k <= prefix@.len(),
            forall|m: int| 0 <= m < k ==> text@[m] == prefix@[m],
        decreases prefix.len() - k,
    {
        if text[k] != prefix[k] {
            assert(text@.take(prefix@.len() as int)[k as int] != prefix@[k as int]);
            return false;
        }
        k += 1;
    }
    assert(text@.take(prefix@.len() as int) =~= prefix@);
    true
}

} // verus!
