//! The capitalization rule: a state machine over the words of a paragraph
//! that knows where a word should start with an upper- or lower-case
//! letter, following sentence ends, quotations and parentheses.

use vstd::prelude::*;
use crate::case::{has_lower, spec_detect_case, detect_case, CaseType};
use crate::character::{
    spec_is_finnish_quotation_mark, is_finnish_quotation_mark, spec_is_ascii_digit, is_ascii_digit,
    spec_is_upper, is_upper, spec_is_lower, is_lower, lowercase_of, uppercase_of, simple_lower, simple_upper,
};
use crate::enums::TokenType;
use crate::grammar::checks::{
    ErrorView, GrammarOptions, push_error, error_suggesting_chars, first_of, first_or_nul_of, first_char,
    first_or_nul, tlen, spec_is_chapter_number, is_chapter_number, spec_is_integer, is_integer,
    spec_is_possible_list_item, is_possible_list_item,
};
use crate::grammar::paragraph::{GrammarSentence, GrammarToken, Paragraph};
use crate::grammar_error::{
    GrammarError, errors_view, GCERR_MISPLACED_CLOSING_PARENTHESIS, GCERR_WRITE_FIRST_LOWERCASE,
    GCERR_WRITE_FIRST_UPPERCASE,
};
use crate::text::chars_eq_str;

verus! {

/// Where a token stands: sentence index, token index.
pub type TokenPos = (usize, usize);

/// A token position as integers.
pub type SPos = (int, int);

/// A token position as integers.
pub open spec fn pos_view(pos: TokenPos) -> SPos {
    (pos.0 as int, pos.1 as int)
}

/// Token positions as integers.
pub open spec fn positions_view(v: Seq<TokenPos>) -> Seq<SPos> {
    v.map_values(|pos: TokenPos| pos_view(pos))
}

/// The token at a position.
pub open spec fn tok(p: Paragraph, pos: SPos) -> GrammarToken {
    p.sentences@[pos.0].tokens@[pos.1]
}

/// Number of tokens of sentence `s`.
pub open spec fn slen(p: Paragraph, s: int) -> int {
    p.sentences@[s].tokens@.len() as int
}

/// The position names a token of the paragraph.
pub open spec fn valid_pos(p: Paragraph, pos: SPos) -> bool {
    0 <= pos.0 < p.sentences@.len() && 0 <= pos.1 < slen(p, pos.0)
}

/// Whether a sentence is left out of the check, read from token `i` on: a
/// foreign quotation mark before the first word with a lower-case letter
/// leaves it out, and so does having no such word (all in upper case).
pub open spec fn skipped_from(ts: Seq<GrammarToken>, i: int) -> bool
    decreases ts.len() - i,
{
    if i < 0 || i >= ts.len() {
        true
    } else if first_char(ts[i]) == Some('\u{201C}') {
        true
    } else if ts[i].token_type == TokenType::Word && has_lower(ts[i].text@) {
        false
    } else {
        skipped_from(ts, i + 1)
    }
}

/// The sentence is written in upper case, or holds a foreign quotation
/// mark before its first word with a lower-case letter.
pub open spec fn sentence_skipped(s: GrammarSentence) -> bool {
    skipped_from(s.tokens@, 0)
}

/// The state of the capitalization scan: the cursor (sentence, token), the
/// token before the next word and the next word, the open quotation marks
/// and parentheses, whether a sentence ended, and the errors found.
pub struct CapScan {
    pub cs: int,
    pub ct: int,
    pub before: Option<SPos>,
    pub next: Option<SPos>,
    pub quotes: Seq<char>,
    pub ended: bool,
    pub errors: Seq<ErrorView>,
}

/// The states of the capitalization machine.
#[derive(Debug, Clone, Copy, PartialEq, Eq, Structural)]
pub enum CapState {
    /// Before the first word.
    Initial,
    /// The next word should start with an upper-case letter.
    Upper,
    /// The next word should start with a lower-case letter.
    Lower,
    /// Either case is fine for the next word.
    DontCare,
    /// Inside a quotation or parentheses.
    Quoted,
}

/// Tokens in the sentences from `cs` on.
pub open spec fn tokens_from(p: Paragraph, cs: int) -> int
    decreases p.sentences@.len() - cs,
{
    if cs < 0 || cs >= p.sentences@.len() {
        0
    } else {
        slen(p, cs) + tokens_from(p, cs + 1)
    }
}

/// Tokens not yet passed by the cursor.
pub open spec fn remaining(c: CapScan, p: Paragraph) -> int {
    tokens_from(p, c.cs) - c.ct
}

/// The cursor is inside a sentence, or at the start of one (or past the
/// last).
pub open spec fn cursor_ok(c: CapScan, p: Paragraph) -> bool {
    &&& 0 <= c.cs <= p.sentences@.len()
    &&& 0 <= c.ct
    &&& c.cs == p.sentences@.len() ==> c.ct == 0
    &&& c.ct > 0 ==> c.cs < p.sentences@.len() && !sentence_skipped(p.sentences@[c.cs]) && c.ct < slen(p, c.cs)
}

/// The cursor is on a token.
pub open spec fn live(c: CapScan, p: Paragraph) -> bool {
    0 <= c.cs < p.sentences@.len() && 0 <= c.ct < slen(p, c.cs)
}

/// The next token, past left-out sentences, and the cursor after it.
pub open spec fn advance(p: Paragraph, c: CapScan) -> (Option<SPos>, CapScan)
    decreases p.sentences@.len() - c.cs,
{
    if c.cs < 0 || c.cs >= p.sentences@.len() {
        (None, c)
    } else if sentence_skipped(p.sentences@[c.cs]) {
        advance(p, CapScan { cs: c.cs + 1, ..c })
    } else if c.ct + 1 >= slen(p, c.cs) {
        (Some((c.cs, c.ct)), CapScan { cs: c.cs + 1, ct: 0, ..c })
    } else {
        (Some((c.cs, c.ct)), CapScan { ct: c.ct + 1, ..c })
    }
}

proof fn lemma_empty_skipped(s: GrammarSentence)
    requires
        s.tokens@.len() == 0,
    ensures
        sentence_skipped(s),
{
}

proof fn lemma_tokens_from_nonneg(p: Paragraph, cs: int)
    ensures
        tokens_from(p, cs) >= 0,
    decreases p.sentences@.len() - cs,
{
    if 0 <= cs < p.sentences@.len() {
        lemma_tokens_from_nonneg(p, cs + 1);
    }
}

/// Advancing keeps the cursor sound, gives a token of the paragraph, and
/// passes at least that token.
proof fn lemma_advance(p: Paragraph, c: CapScan)
    requires
        cursor_ok(c, p),
    ensures
        cursor_ok(advance(p, c).1, p),
        0 <= remaining(advance(p, c).1, p) <= remaining(c, p),
        advance(p, c).0 matches Some(pos) ==> valid_pos(p, pos) && remaining(advance(p, c).1, p) < remaining(
            c,
            p,
        ),
        advance(p, c).0 is None ==> advance(p, c).1.cs >= p.sentences@.len(),
        advance(p, c).1.before == c.before,
        advance(p, c).1.next == c.next,
        advance(p, c).1.quotes == c.quotes,
        advance(p, c).1.ended == c.ended,
        advance(p, c).1.errors == c.errors,
    decreases p.sentences@.len() - c.cs,
{
    lemma_tokens_from_nonneg(p, c.cs);
    lemma_tokens_from_nonneg(p, c.cs + 1);
    if c.cs < p.sentences@.len() {
        if sentence_skipped(p.sentences@[c.cs]) {
            lemma_advance(p, CapScan { cs: c.cs + 1, ..c });
        } else {
            if slen(p, c.cs) == 0 {
                lemma_empty_skipped(p.sentences@[c.cs]);
            }
        }
    }
}

/// The tokens up to the next word: collected positions and the scan with
/// the next word found (none at the end), the last of them as the token
/// before it.
pub open spec fn collect_from(p: Paragraph, c: CapScan, seps: Seq<SPos>) -> (Seq<SPos>, CapScan)
    decreases remaining(c, p),
    when cursor_ok(c, p)
    via collect_from_decreases
{
    let a = advance(p, c);
    match a.0 {
        None => (seps, CapScan { next: None, ..a.1 }),
        Some(pos) => if tok(p, pos).token_type == TokenType::Word {
            (seps, CapScan { next: Some(pos), ..a.1 })
        } else {
            collect_from(p, CapScan { before: Some(pos), ..a.1 }, seps.push(pos))
        },
    }
}

#[via_fn]
proof fn collect_from_decreases(p: Paragraph, c: CapScan, seps: Seq<SPos>) {
    lemma_advance(p, c);
}

/// The tokens between the next word and the one after it.
pub open spec fn until_next_word(p: Paragraph, c: CapScan) -> (Seq<SPos>, CapScan) {
    collect_from(p, CapScan { before: c.next, ..c }, Seq::empty())
}

/// Collecting the tokens up to the next word keeps the cursor sound and
/// either passes a token or reaches the end of the paragraph.
proof fn lemma_collect(p: Paragraph, c: CapScan, seps: Seq<SPos>)
    requires
        cursor_ok(c, p),
        forall|j: int| 0 <= j < seps.len() ==> valid_pos(p, #[trigger] seps[j]),
        c.before matches Some(b) ==> valid_pos(p, b),
    ensures
        ({
            let r = collect_from(p, c, seps);
            &&& cursor_ok(r.1, p)
            &&& 0 <= remaining(r.1, p) <= remaining(c, p)
            &&& (remaining(r.1, p) < remaining(c, p) || r.1.cs >= p.sentences@.len())
            &&& (r.1.next is None ==> r.1.cs >= p.sentences@.len())
            &&& (r.1.next matches Some(w) ==> valid_pos(p, w))
            &&& (r.1.before matches Some(b) ==> valid_pos(p, b))
            &&& forall|j: int| 0 <= j < r.0.len() ==> valid_pos(p, #[trigger] r.0[j])
            &&& r.1.quotes == c.quotes
            &&& r.1.ended == c.ended
            &&& r.1.errors == c.errors
        }),
    decreases remaining(c, p),
{
    lemma_advance(p, c);
    let a = advance(p, c);
    match a.0 {
        None => {},
        Some(pos) => {
            if tok(p, pos).token_type != TokenType::Word {
                let c2 = CapScan { before: Some(pos), ..a.1 };
                let s2 = seps.push(pos);
                assert forall|j: int| 0 <= j < s2.len() implies valid_pos(p, #[trigger] s2[j]) by {
                    if j < seps.len() {
                        assert(s2[j] == seps[j]);
                    }
                }
                lemma_collect(p, c2, s2);
            }
        },
    }
}

/// The effect of one token between words on the open quotation marks and
/// parentheses, the sentence-end flag and the errors; the last value tells
/// that the token was a quotation mark. A quotation mark closes the same
/// mark or opens one; a closing parenthesis with nothing open is an error.
pub open spec fn quote_step(t: GrammarToken, q: Seq<char>, ended: bool, errors: Seq<ErrorView>) -> (
    Seq<char>,
    bool,
    Seq<ErrorView>,
    bool,
) {
    let ch = first_or_nul(t);
    if t.token_type != TokenType::Punctuation {
        (q, ended, errors, false)
    } else if spec_is_finnish_quotation_mark(ch) {
        (
            if q.len() > 0 && q.last() == ch {
                q.drop_last()
            } else {
                q.push(ch)
            },
            ended,
            errors,
            true,
        )
    } else if ch == '(' || ch == '[' {
        (q.push(ch), ended, errors, false)
    } else if ch == ')' || ch == ']' {
        if q.len() == 0 {
            (
                q,
                ended,
                errors.push((GCERR_MISPLACED_CLOSING_PARENTHESIS, t.pos as int, 1int, Seq::<Seq<char>>::empty())),
                false,
            )
        } else if q.last() == '(' || q.last() == '[' {
            (q.drop_last(), ended, errors, false)
        } else {
            (q, ended, errors, false)
        }
    } else if ch == '.' || ch == '!' || ch == '?' {
        (q, true, errors, false)
    } else {
        (q, ended, errors, false)
    }
}

/// The tokens from `j` on applied in turn.
pub open spec fn quotes_from(
    p: Paragraph,
    seps: Seq<SPos>,
    j: int,
    q: Seq<char>,
    ended: bool,
    errors: Seq<ErrorView>,
    has: bool,
) -> (Seq<char>, bool, Seq<ErrorView>, bool)
    decreases seps.len() - j,
{
    if j < 0 || j >= seps.len() {
        (q, ended, errors, has)
    } else {
        let r = quote_step(tok(p, seps[j]), q, ended, errors);
        quotes_from(p, seps, j + 1, r.0, r.1, r.2, has || r.3)
    }
}

/// The scan after the tokens between words, and whether a quotation mark
/// was among them.
pub open spec fn apply_quotes(p: Paragraph, seps: Seq<SPos>, c: CapScan) -> (CapScan, bool) {
    let r = quotes_from(p, seps, 0, c.quotes, c.ended, c.errors, false);
    (CapScan { quotes: r.0, ended: r.1, errors: r.2, ..c }, r.3)
}

/// Some of the tokens has exactly this text.
pub open spec fn contains_text(p: Paragraph, seps: Seq<SPos>, text: Seq<char>) -> bool {
    exists|j: int| 0 <= j < seps.len() && (#[trigger] tok(p, seps[j])).text@ == text
}

/// Whether the last punctuation among the first `j` tokens that is not a
/// comma ends a sentence (`.`, `?` or `!`).
pub open spec fn last_punct_ends_upto(p: Paragraph, seps: Seq<SPos>, j: int) -> bool
    decreases j,
{
    if j <= 0 || j > seps.len() {
        false
    } else {
        let t = tok(p, seps[j - 1]);
        if t.token_type == TokenType::Punctuation && first_char(t) != Some(',') {
            first_char(t) == Some('.') || first_char(t) == Some('?') || first_char(t) == Some('!')
        } else {
            last_punct_ends_upto(p, seps, j - 1)
        }
    }
}

/// The last punctuation between two words, commas aside, ends a sentence.
pub open spec fn last_punct_ends(p: Paragraph, seps: Seq<SPos>) -> bool {
    last_punct_ends_upto(p, seps, seps.len() as int)
}

/// A geographical name in the genitive followed by a single space: the
/// start of an institution's name.
pub open spec fn place_name(word: GrammarToken, p: Paragraph, seps: Seq<SPos>) -> bool {
    word.is_geographical_name_in_genitive && seps.len() == 1 && first_char(tok(p, seps[0])) == Some(' ')
}

/// A list item number followed by a closing parenthesis.
pub open spec fn list_item_paren(word: GrammarToken, p: Paragraph, seps: Seq<SPos>) -> bool {
    seps.len() > 0 && first_char(tok(p, seps[0])) == Some(')') && spec_is_possible_list_item(word.text@)
}

/// A word that should start with an upper-case letter but does not (nor
/// with a digit), and that cannot start a sentence anyway.
pub open spec fn upper_error(word: GrammarToken) -> bool {
    tlen(word) > 0 && !spec_is_upper(word.text@[0]) && !spec_is_ascii_digit(word.text@[0])
        && !word.possible_sentence_start
}

/// A known word of more than one letter that is written with a lower-case
/// first letter, and here starts with an upper-case one, not in an
/// abbreviation, not all in upper case, and not a possible name.
pub open spec fn lower_error(word: GrammarToken) -> bool {
    &&& word.is_valid_word
    &&& word.first_letter_lcase
    &&& tlen(word) > 1
    &&& spec_is_upper(word.text@[0])
    &&& !word.possible_sentence_start
    &&& word.text@[1] != '-'
    &&& word.text@[1] != ':'
    &&& spec_detect_case(word.text@) != CaseType::AllUpper
    &&& !word.possible_geographical_name
}

/// After a list item and its closing parenthesis: the rest of the tokens
/// are applied, and either case may follow.
pub open spec fn list_item_exit(p: Paragraph, seps: Seq<SPos>, c: CapScan) -> (CapScan, CapState) {
    let rest = if seps.len() > 1 {
        seps.skip(1)
    } else {
        Seq::empty()
    };
    (apply_quotes(p, rest, c).0, CapState::DontCare)
}

/// The initial state: up to the first word; it should start with an
/// upper-case letter unless a quotation is open, lists are accepted, or a
/// dash stands before it.
pub open spec fn initial_step(p: Paragraph, opts: GrammarOptions, c: CapScan) -> (CapScan, CapState) {
    let u = until_next_word(p, c);
    let c2 = apply_quotes(p, u.0, u.1).0;
    if c2.quotes.len() > 0 {
        (c2, CapState::Quoted)
    } else if opts.accept_bulleted_lists_in_gc || contains_text(p, u.0, "-"@) {
        (c2, CapState::DontCare)
    } else {
        (c2, CapState::Upper)
    }
}

/// The next word should start with an upper-case letter.
pub open spec fn upper_step(p: Paragraph, opts: GrammarOptions, c: CapScan) -> (CapScan, CapState) {
    match c.next {
        None => (c, CapState::DontCare),
        Some(w) => {
            let word = tok(p, w);
            let u = until_next_word(p, c);
            let seps = u.0;
            if list_item_paren(word, p, seps) {
                list_item_exit(p, seps, u.1)
            } else {
                let c1 = if upper_error(word) {
                    CapScan {
                        errors: u.1.errors.push(
                            (GCERR_WRITE_FIRST_UPPERCASE, word.pos as int, tlen(word), seq![
                                word.text@.update(0, uppercase_of(word.text@[0])),
                            ]),
                        ),
                        ..u.1
                    }
                } else {
                    u.1
                };
                let c2 = apply_quotes(p, seps, c1).0;
                if c2.quotes.len() > 0 {
                    (c2, CapState::Quoted)
                } else if contains_text(p, seps, "\t"@) || place_name(word, p, seps) {
                    (c2, CapState::DontCare)
                } else if opts.accept_titles_in_gc && spec_is_chapter_number(word.text@) {
                    (c2, CapState::DontCare)
                } else if spec_is_integer(word.text@) && (c.before matches Some(b) && tok(p, b).token_type
                    != TokenType::Whitespace) {
                    (c2, CapState::DontCare)
                } else if last_punct_ends(p, seps) {
                    (CapScan { ended: true, ..c2 }, CapState::Upper)
                } else {
                    (c2, CapState::Lower)
                }
            }
        },
    }
}

/// The next word should start with a lower-case letter.
pub open spec fn lower_step(p: Paragraph, opts: GrammarOptions, c: CapScan) -> (CapScan, CapState) {
    match c.next {
        None => (c, CapState::DontCare),
        Some(w) => {
            let word = tok(p, w);
            let c0 = if lower_error(word) {
                CapScan {
                    errors: c.errors.push(
                        (GCERR_WRITE_FIRST_LOWERCASE, word.pos as int, tlen(word), seq![
                            word.text@.update(0, lowercase_of(word.text@[0])),
                        ]),
                    ),
                    ..c
                }
            } else {
                c
            };
            let u = until_next_word(p, c0);
            let seps = u.0;
            if list_item_paren(word, p, seps) {
                list_item_exit(p, seps, u.1)
            } else {
                let c2 = apply_quotes(p, seps, u.1).0;
                if c2.quotes.len() > 0 {
                    (c2, CapState::Quoted)
                } else if contains_text(p, seps, "\t"@) || place_name(word, p, seps) {
                    (c2, CapState::DontCare)
                } else if last_punct_ends(p, seps) {
                    (CapScan { ended: true, ..c2 }, CapState::Upper)
                } else {
                    (c2, CapState::Lower)
                }
            }
        },
    }
}

/// Either case is fine for the next word.
pub open spec fn dont_care_step(p: Paragraph, opts: GrammarOptions, c: CapScan) -> (CapScan, CapState) {
    match c.next {
        None => (c, CapState::DontCare),
        Some(w) => {
            let word = tok(p, w);
            let u = until_next_word(p, c);
            let seps = u.0;
            if list_item_paren(word, p, seps) {
                list_item_exit(p, seps, u.1)
            } else {
                let c2 = apply_quotes(p, seps, u.1).0;
                if c2.quotes.len() > 0 {
                    (c2, CapState::Quoted)
                } else if contains_text(p, seps, "\t"@) {
                    (c2, CapState::DontCare)
                } else if opts.accept_titles_in_gc && spec_is_chapter_number(word.text@) {
                    (c2, CapState::DontCare)
                } else if last_punct_ends(p, seps) {
                    (CapScan { ended: true, ..c2 }, CapState::Upper)
                } else {
                    (c2, CapState::Lower)
                }
            }
        },
    }
}

/// Inside a quotation or parentheses.
pub open spec fn quoted_step(p: Paragraph, c: CapScan) -> (CapScan, CapState) {
    let u = until_next_word(p, c);
    let seps = u.0;
    let a = apply_quotes(p, seps, u.1);
    let c2 = a.0;
    if c2.quotes.len() > 0 {
        (c2, CapState::Quoted)
    } else if last_punct_ends(p, seps) {
        (CapScan { ended: false, ..c2 }, CapState::Upper)
    } else if a.1 || c2.ended {
        (CapScan { ended: false, ..c2 }, CapState::DontCare)
    } else {
        (c2, CapState::Lower)
    }
}

/// One step of the machine.
pub open spec fn cap_step(p: Paragraph, opts: GrammarOptions, c: CapScan, st: CapState) -> (CapScan, CapState) {
    match st {
        CapState::Initial => initial_step(p, opts, c),
        CapState::Upper => upper_step(p, opts, c),
        CapState::Lower => lower_step(p, opts, c),
        CapState::DontCare => dont_care_step(p, opts, c),
        CapState::Quoted => quoted_step(p, c),
    }
}

/// What holds of the scan between steps: a sound cursor, positions that
/// name tokens, and a next word unless at the start or at the end.
pub open spec fn cap_inv(p: Paragraph, c: CapScan, st: CapState) -> bool {
    &&& cursor_ok(c, p)
    &&& (st == CapState::Initial || c.next is Some || !live(c, p))
    &&& (c.next matches Some(w) ==> valid_pos(p, w))
    &&& (c.before matches Some(b) ==> valid_pos(p, b))
}

/// What is left of the paragraph: tokens not passed, and one more while the
/// cursor is on a token.
pub open spec fn cap_measure(p: Paragraph, c: CapScan) -> int {
    remaining(c, p) + if live(c, p) {
        1int
    } else {
        0int
    }
}

/// Every step keeps what holds between steps and makes progress.
proof fn lemma_step(p: Paragraph, opts: GrammarOptions, c: CapScan, st: CapState)
    requires
        cap_inv(p, c, st),
        live(c, p),
    ensures
        cap_inv(p, cap_step(p, opts, c, st).0, cap_step(p, opts, c, st).1),
        0 <= cap_measure(p, cap_step(p, opts, c, st).0) < cap_measure(p, c),
{
    let c0 = match st {
        CapState::Lower => match c.next {
            Some(w) => if lower_error(tok(p, w)) {
                CapScan {
                    errors: c.errors.push(
                        (GCERR_WRITE_FIRST_LOWERCASE, tok(p, w).pos as int, tlen(tok(p, w)), seq![
                            tok(p, w).text@.update(0, lowercase_of(tok(p, w).text@[0])),
                        ]),
                    ),
                    ..c
                }
            } else {
                c
            },
            None => c,
        },
        _ => c,
    };
    let start = CapScan { before: c0.next, ..c0 };
    lemma_collect(p, start, Seq::empty());
    let u = until_next_word(p, c0);
    assert(u == collect_from(p, start, Seq::empty()));
    lemma_tokens_from_nonneg(p, c.cs);
}

/// The errors that the machine finds from a state on.
pub open spec fn run_from(p: Paragraph, opts: GrammarOptions, c: CapScan, st: CapState) -> Seq<ErrorView>
    decreases cap_measure(p, c),
    when cap_inv(p, c, st)
    via run_from_decreases
{
    if !live(c, p) {
        c.errors
    } else {
        let r = cap_step(p, opts, c, st);
        run_from(p, opts, r.0, r.1)
    }
}

#[via_fn]
proof fn run_from_decreases(p: Paragraph, opts: GrammarOptions, c: CapScan, st: CapState) {
    if live(c, p) {
        lemma_step(p, opts, c, st);
    }
}

/// The scan at the start of a paragraph.
pub open spec fn cap_start() -> CapScan {
    CapScan { cs: 0, ct: 0, before: None, next: None, quotes: Seq::empty(), ended: false, errors: Seq::empty() }
}

/// The capitalization errors of a paragraph.
pub open spec fn capitalization_errors(p: Paragraph, opts: GrammarOptions) -> Seq<ErrorView> {
    run_from(p, opts, cap_start(), CapState::Initial)
}

/// A position as integers, if any.
pub open spec fn opt_pos_view(o: Option<TokenPos>) -> Option<SPos> {
    match o {
        Some(pos) => Some(pos_view(pos)),
        None => None,
    }
}

/// The running state of the capitalization check.
struct CapitalizationContext<'a> {
    paragraph: &'a Paragraph,
    options: &'a GrammarOptions,
    current_sentence: usize,
    current_token: usize,
    token_before_next_word: Option<TokenPos>,
    next_word: Option<TokenPos>,
    quotes: Vec<char>,
    sentence_ended: bool,
    errors: Vec<GrammarError>,
}

impl<'a> CapitalizationContext<'a> {
    spec fn scan(&self) -> CapScan {
        CapScan {
            cs: self.current_sentence as int,
            ct: self.current_token as int,
            before: opt_pos_view(self.token_before_next_word),
            next: opt_pos_view(self.next_word),
            quotes: self.quotes@,
            ended: self.sentence_ended,
            errors: errors_view(self.errors@),
        }
    }

    spec fn par(&self) -> Paragraph {
        *self.paragraph
    }
}

/// Whether the word has a lower-case letter.
fn has_lowercase_letter(text: &[char]) -> (r: bool)
    ensures
        r == has_lower(text@),
{
    let mut i: usize = 0;
    while i < text.len()
        invariant
            i <= text@.len(),
            forall|k: int| 0 <= k < i ==> !spec_is_lower(#[trigger] text@[k]),
        decreases text.len() - i,
    {
        if is_lower(text[i]) {
            return true;
        }
        i += 1;
    }
    false
}

/// Whether the capitalization check leaves the sentence out.
fn should_skip_sentence(sentence: &GrammarSentence) -> (r: bool)
    ensures
        r == sentence_skipped(*sentence),
{
    let ghost ts = sentence.tokens@;
    let mut i: usize = 0;
    while i < sentence.tokens.len()
        invariant
            ts == sentence.tokens@,
            i <= ts.len(),
            skipped_from(ts, i as int) == skipped_from(ts, 0),
        decreases sentence.tokens.len() - i,
    {
        let t = &sentence.tokens[i];
        if first_of(t) == Some('\u{201C}') {
            return true;
        }
        if t.token_type == TokenType::Word && has_lowercase_letter(t.text.as_slice()) {
            return false;
        }
        i += 1;
    }
    true
}

/// The next token past left-out sentences; the cursor moves past it.
fn get_token_and_advance(ctx: &mut CapitalizationContext) -> (r: Option<TokenPos>)
    requires
        cursor_ok(old(ctx).scan(), old(ctx).par()),
    ensures
        (opt_pos_view(r), final(ctx).scan()) == advance(old(ctx).par(), old(ctx).scan()),
        final(ctx).paragraph == old(ctx).paragraph,
        final(ctx).options == old(ctx).options,
{
    let ghost p = ctx.par();
    let ghost c0 = ctx.scan();
    loop
        invariant
            p == ctx.par(),
            ctx.paragraph == old(ctx).paragraph,
            ctx.options == old(ctx).options,
            cursor_ok(ctx.scan(), p),
            advance(p, ctx.scan()) == advance(p, c0),
            c0 == old(ctx).scan(),
        decreases p.sentences@.len() - ctx.current_sentence,
    {
        if ctx.current_sentence >= ctx.paragraph.sentences.len() {
            return None;
        }
        let sentence = &ctx.paragraph.sentences[ctx.current_sentence];
        if should_skip_sentence(sentence) {
            ctx.current_sentence += 1;
            continue;
        }
        if sentence.tokens.len() == 0 {
            proof {
                lemma_empty_skipped(*sentence);
            }
        }
        let pos: TokenPos = (ctx.current_sentence, ctx.current_token);
        ctx.current_token += 1;
        if ctx.current_token >= sentence.tokens.len() {
            ctx.current_token = 0;
            ctx.current_sentence += 1;
        }
        return Some(pos);
    }
}

/// The tokens up to the next word; the next word and the token before it
/// are recorded.
fn get_tokens_until_next_word(ctx: &mut CapitalizationContext) -> (r: Vec<TokenPos>)
    requires
        cursor_ok(old(ctx).scan(), old(ctx).par()),
        old(ctx).scan().next matches Some(w) ==> valid_pos(old(ctx).par(), w),
    ensures
        (positions_view(r@), final(ctx).scan()) == until_next_word(old(ctx).par(), old(ctx).scan()),
        final(ctx).paragraph == old(ctx).paragraph,
        final(ctx).options == old(ctx).options,
{
    let ghost p = ctx.par();
    let mut tokens: Vec<TokenPos> = Vec::new();
    ctx.token_before_next_word = ctx.next_word;
    let ghost start = ctx.scan();
    assert(positions_view(tokens@) =~= Seq::<SPos>::empty());
    assert(start == (CapScan { before: old(ctx).scan().next, ..old(ctx).scan() }));
    loop
        invariant
            p == ctx.par(),
            ctx.paragraph == old(ctx).paragraph,
            ctx.options == old(ctx).options,
            cursor_ok(ctx.scan(), p),
            ctx.scan().before matches Some(b) ==> valid_pos(p, b),
            forall|j: int| 0 <= j < tokens@.len() ==> valid_pos(p, #[trigger] positions_view(tokens@)[j]),
            collect_from(p, ctx.scan(), positions_view(tokens@)) == collect_from(p, start, Seq::empty()),
            start == (CapScan { before: old(ctx).scan().next, ..old(ctx).scan() }),
        decreases remaining(ctx.scan(), p),
    {
        let ghost c = ctx.scan();
        let ghost seps = positions_view(tokens@);
        proof {
            lemma_advance(p, c);
        }
        let t = get_token_and_advance(ctx);
        match t {
            None => {
                ctx.next_word = None;
                return tokens;
            },
            Some(pos) => {
                let tk = &ctx.paragraph.sentences[pos.0].tokens[pos.1];
                if tk.token_type == TokenType::Word {
                    ctx.next_word = Some(pos);
                    return tokens;
                }
                tokens.push(pos);
                ctx.token_before_next_word = Some(pos);
                proof {
                    assert(positions_view(tokens@) =~= seps.push(pos_view(pos)));
                }
            },
        }
    }
}

/// Apply the tokens between words to the open quotation marks and
/// parentheses; whether a quotation mark was among them.
fn push_and_pop_quotes(ctx: &mut CapitalizationContext, seps: &[TokenPos]) -> (r: bool)
    requires
        forall|j: int| 0 <= j < seps@.len() ==> valid_pos(old(ctx).par(), #[trigger] positions_view(seps@)[j]),
    ensures
        (final(ctx).scan(), r) == apply_quotes(old(ctx).par(), positions_view(seps@), old(ctx).scan()),
        final(ctx).paragraph == old(ctx).paragraph,
        final(ctx).options == old(ctx).options,
{
    let ghost p = ctx.par();
    let ghost sv = positions_view(seps@);
    let ghost c0 = ctx.scan();
    let ghost target = quotes_from(p, sv, 0, c0.quotes, c0.ended, c0.errors, false);
    let mut has_quotes = false;
    let mut j: usize = 0;
    while j < seps.len()
        invariant
            p == ctx.par(),
            sv == positions_view(seps@),
            ctx.paragraph == old(ctx).paragraph,
            ctx.options == old(ctx).options,
            c0 == old(ctx).scan(),
            target == quotes_from(p, sv, 0, c0.quotes, c0.ended, c0.errors, false),
            j <= seps@.len(),
            forall|k: int| 0 <= k < seps@.len() ==> valid_pos(p, #[trigger] sv[k]),
            quotes_from(p, sv, j as int, ctx.quotes@, ctx.sentence_ended, errors_view(ctx.errors@), has_quotes)
                == target,
            ctx.current_sentence == old(ctx).current_sentence,
            ctx.current_token == old(ctx).current_token,
            ctx.token_before_next_word == old(ctx).token_before_next_word,
            ctx.next_word == old(ctx).next_word,
        decreases seps.len() - j,
    {
        let pos = seps[j];
        assert(sv[j as int] == pos_view(pos));
        assert(valid_pos(p, sv[j as int]));
        let t = &ctx.paragraph.sentences[pos.0].tokens[pos.1];
        if t.token_type == TokenType::Punctuation {
            let ch = first_or_nul_of(t);
            if is_finnish_quotation_mark(ch) {
                has_quotes = true;
                let n = ctx.quotes.len();
                if n > 0 && ctx.quotes[n - 1] == ch {
                    ctx.quotes.pop();
                } else {
                    ctx.quotes.push(ch);
                }
            } else if ch == '(' || ch == '[' {
                ctx.quotes.push(ch);
            } else if ch == ')' || ch == ']' {
                let n = ctx.quotes.len();
                if n == 0 {
                    let e = GrammarError::new(GCERR_MISPLACED_CLOSING_PARENTHESIS, t.pos, 1);
                    push_error(&mut ctx.errors, e);
                } else if ctx.quotes[n - 1] == '(' || ctx.quotes[n - 1] == '[' {
                    ctx.quotes.pop();
                }
            } else if ch == '.' || ch == '!' || ch == '?' {
                ctx.sentence_ended = true;
            }
        }
        j += 1;
    }
    has_quotes
}

/// The positions name tokens of the paragraph.
pub open spec fn all_valid(p: Paragraph, seps: Seq<TokenPos>) -> bool {
    forall|j: int| 0 <= j < seps.len() ==> valid_pos(p, #[trigger] positions_view(seps)[j])
}

/// Whether some of the tokens has exactly the given text.
fn contains_token_text(p: &Paragraph, seps: &[TokenPos], text: &str) -> (r: bool)
    requires
        all_valid(*p, seps@),
    ensures
        r == contains_text(*p, positions_view(seps@), text@),
{
    let ghost sv = positions_view(seps@);
    let mut j: usize = 0;
    while j < seps.len()
        invariant
            sv == positions_view(seps@),
            all_valid(*p, seps@),
            j <= seps@.len(),
            forall|k: int| 0 <= k < j ==> (#[trigger] tok(*p, sv[k])).text@ != text@,
        decreases seps.len() - j,
    {
        let pos = seps[j];
        assert(sv[j as int] == pos_view(pos));
        assert(valid_pos(*p, sv[j as int]));
        if chars_eq_str(p.sentences[pos.0].tokens[pos.1].text.as_slice(), text) {
            assert(tok(*p, sv[j as int]).text@ == text@);
            return true;
        }
        j += 1;
    }
    false
}

/// Whether the last punctuation among the tokens, commas aside, ends a
/// sentence.
fn last_punctuation_ends_sentence(p: &Paragraph, seps: &[TokenPos]) -> (r: bool)
    requires
        all_valid(*p, seps@),
    ensures
        r == last_punct_ends(*p, positions_view(seps@)),
{
    let ghost sv = positions_view(seps@);
    let mut j: usize = seps.len();
    while j > 0
        invariant
            sv == positions_view(seps@),
            all_valid(*p, seps@),
            j <= seps@.len(),
            last_punct_ends_upto(*p, sv, j as int) == last_punct_ends(*p, sv),
        decreases j,
    {
        let pos = seps[j - 1];
        assert(sv[j - 1] == pos_view(pos));
        assert(valid_pos(*p, sv[j - 1]));
        let t = &p.sentences[pos.0].tokens[pos.1];
        let c = first_of(t);
        if t.token_type == TokenType::Punctuation && c != Some(',') {
            return c == Some('.') || c == Some('?') || c == Some('!');
        }
        j -= 1;
    }
    false
}

/// Whether the word is a geographical name in the genitive followed by a
/// single space.
fn place_name_in_institution_name(word: &GrammarToken, p: &Paragraph, seps: &[TokenPos]) -> (r: bool)
    requires
        all_valid(*p, seps@),
    ensures
        r == place_name(*word, *p, positions_view(seps@)),
{
    if word.is_geographical_name_in_genitive && seps.len() == 1 {
        let pos = seps[0];
        assert(positions_view(seps@)[0] == pos_view(pos));
        assert(valid_pos(*p, positions_view(seps@)[0]));
        first_of(&p.sentences[pos.0].tokens[pos.1]) == Some(' ')
    } else {
        false
    }
}

/// Whether the word numbers a list item and a closing parenthesis follows.
fn is_list_item_and_closing_parenthesis(word: &GrammarToken, p: &Paragraph, seps: &[TokenPos]) -> (r: bool)
    requires
        all_valid(*p, seps@),
    ensures
        r == list_item_paren(*word, *p, positions_view(seps@)),
{
    if seps.len() == 0 {
        return false;
    }
    let pos = seps[0];
    assert(positions_view(seps@)[0] == pos_view(pos));
    assert(valid_pos(*p, positions_view(seps@)[0]));
    if first_of(&p.sentences[pos.0].tokens[pos.1]) != Some(')') {
        return false;
    }
    is_possible_list_item(word.text.as_slice())
}

/// The tokens after the first.
fn rest_of(seps: &Vec<TokenPos>) -> (r: Vec<TokenPos>)
    ensures
        positions_view(r@) == (if seps@.len() > 1 {
            positions_view(seps@).skip(1)
        } else {
            Seq::empty()
        }),
        seps@.len() > 1 ==> r@ == seps@.skip(1),
        seps@.len() <= 1 ==> r@.len() == 0,
{
    let mut r: Vec<TokenPos> = Vec::new();
    if seps.len() > 1 {
        let mut j: usize = 1;
        while j < seps.len()
            invariant
                1 <= j <= seps@.len(),
                r@ == seps@.subrange(1, j as int),
            decreases seps.len() - j,
        {
            r.push(seps[j]);
            j += 1;
            proof {
                assert(r@ =~= seps@.subrange(1, j as int));
            }
        }
        proof {
            assert(r@ =~= seps@.skip(1));
            assert(positions_view(r@) =~= positions_view(seps@).skip(1));
        }
    } else {
        assert(positions_view(r@) =~= Seq::<SPos>::empty());
    }
    r
}

/// A copy of the word with its first letter changed.
fn with_first_letter(text: &Vec<char>, c: char) -> (r: Vec<char>)
    requires
        text@.len() > 0,
    ensures
        r@ == text@.update(0, c),
{
    let mut r = crate::text::chars_to_vec(text.as_slice());
    r[0] = c;
    r
}

/// What `get_tokens_until_next_word` needs and gives.
spec fn ready(ctx: &CapitalizationContext) -> bool {
    &&& cursor_ok(ctx.scan(), ctx.par())
    &&& (ctx.scan().next matches Some(w) ==> valid_pos(ctx.par(), w))
    &&& (ctx.scan().before matches Some(b) ==> valid_pos(ctx.par(), b))
}

proof fn lemma_until_valid(p: Paragraph, c: CapScan)
    requires
        cursor_ok(c, p),
        c.next matches Some(w) ==> valid_pos(p, w),
    ensures
        forall|j: int| 0 <= j < until_next_word(p, c).0.len() ==> valid_pos(p, #[trigger] until_next_word(p, c).0[j]),
        cursor_ok(until_next_word(p, c).1, p),
        until_next_word(p, c).1.next matches Some(w) ==> valid_pos(p, w),
        until_next_word(p, c).1.before matches Some(b) ==> valid_pos(p, b),
{
    lemma_collect(p, CapScan { before: c.next, ..c }, Seq::empty());
}

/// The tokens up to the next word, which name tokens of the paragraph.
fn separators_until_next_word(ctx: &mut CapitalizationContext) -> (r: Vec<TokenPos>)
    requires
        ready(old(ctx)),
    ensures
        (positions_view(r@), final(ctx).scan()) == until_next_word(old(ctx).par(), old(ctx).scan()),
        final(ctx).paragraph == old(ctx).paragraph,
        final(ctx).options == old(ctx).options,
        all_valid(final(ctx).par(), r@),
        ready(final(ctx)),
{
    let ghost u = until_next_word(ctx.par(), ctx.scan());
    proof {
        lemma_until_valid(ctx.par(), ctx.scan());
    }
    let r = get_tokens_until_next_word(ctx);
    proof {
        assert forall|j: int| 0 <= j < r@.len() implies valid_pos(ctx.par(), #[trigger] positions_view(r@)[j]) by {
            assert(positions_view(r@)[j] == u.0[j]);
        }
    }
    r
}

/// The initial state.
fn in_initial(ctx: &mut CapitalizationContext) -> (r: CapState)
    requires
        ready(old(ctx)),
    ensures
        (final(ctx).scan(), r) == initial_step(old(ctx).par(), *old(ctx).options, old(ctx).scan()),
        final(ctx).paragraph == old(ctx).paragraph,
        final(ctx).options == old(ctx).options,
{
    let separators = separators_until_next_word(ctx);
    push_and_pop_quotes(ctx, separators.as_slice());
    if ctx.quotes.len() > 0 {
        return CapState::Quoted;
    }
    if ctx.options.accept_bulleted_lists_in_gc {
        return CapState::DontCare;
    }
    if contains_token_text(ctx.paragraph, separators.as_slice(), "-") {
        return CapState::DontCare;
    }
    CapState::Upper
}

/// The next word should start with an upper-case letter.
fn in_upper(ctx: &mut CapitalizationContext) -> (r: CapState)
    requires
        ready(old(ctx)),
    ensures
        (final(ctx).scan(), r) == upper_step(old(ctx).par(), *old(ctx).options, old(ctx).scan()),
        final(ctx).paragraph == old(ctx).paragraph,
        final(ctx).options == old(ctx).options,
{
    let token_before_word = ctx.token_before_next_word;
    let w = match ctx.next_word {
        None => {
            return CapState::DontCare;
        },
        Some(w) => w,
    };
    let p = ctx.paragraph;
    let word = &p.sentences[w.0].tokens[w.1];
    let separators = separators_until_next_word(ctx);
    if is_list_item_and_closing_parenthesis(word, p, separators.as_slice()) {
        let rest = rest_of(&separators);
        proof {
            assert forall|j: int| 0 <= j < rest@.len() implies valid_pos(ctx.par(), #[trigger] positions_view(rest@)[j]) by {
                assert(positions_view(rest@)[j] == positions_view(separators@)[j + 1]);
            }
        }
        push_and_pop_quotes(ctx, rest.as_slice());
        return CapState::DontCare;
    }
    if word.text.len() > 0 {
        let c = word.text[0];
        if !is_upper(c) && !is_ascii_digit(c) && !word.possible_sentence_start {
            let suggestion = with_first_letter(&word.text, simple_upper(c));
            let e = error_suggesting_chars(GCERR_WRITE_FIRST_UPPERCASE, word.pos, word.token_len(), suggestion.as_slice());
            push_error(&mut ctx.errors, e);
        }
    }
    push_and_pop_quotes(ctx, separators.as_slice());
    if ctx.quotes.len() > 0 {
        return CapState::Quoted;
    }
    if contains_token_text(p, separators.as_slice(), "\t") || place_name_in_institution_name(
        word,
        p,
        separators.as_slice(),
    ) {
        return CapState::DontCare;
    }
    if ctx.options.accept_titles_in_gc && is_chapter_number(word.text.as_slice()) {
        return CapState::DontCare;
    }
    if is_integer(word.text.as_slice()) {
        if let Some(b) = token_before_word {
            if p.sentences[b.0].tokens[b.1].token_type != TokenType::Whitespace {
                return CapState::DontCare;
            }
        }
    }
    if last_punctuation_ends_sentence(p, separators.as_slice()) {
        ctx.sentence_ended = true;
        return CapState::Upper;
    }
    CapState::Lower
}

/// The next word should start with a lower-case letter.
fn in_lower(ctx: &mut CapitalizationContext) -> (r: CapState)
    requires
        ready(old(ctx)),
    ensures
        (final(ctx).scan(), r) == lower_step(old(ctx).par(), *old(ctx).options, old(ctx).scan()),
        final(ctx).paragraph == old(ctx).paragraph,
        final(ctx).options == old(ctx).options,
{
    let w = match ctx.next_word {
        None => {
            return CapState::DontCare;
        },
        Some(w) => w,
    };
    let p = ctx.paragraph;
    let word = &p.sentences[w.0].tokens[w.1];
    if word.is_valid_word && word.first_letter_lcase && word.text.len() > 1 && is_upper(word.text[0])
        && !word.possible_sentence_start && word.text[1] != '-' && word.text[1] != ':' && detect_case(
        word.text.as_slice(),
    ) != CaseType::AllUpper && !word.possible_geographical_name {
        let suggestion = with_first_letter(&word.text, simple_lower(word.text[0]));
        let e = error_suggesting_chars(GCERR_WRITE_FIRST_LOWERCASE, word.pos, word.token_len(), suggestion.as_slice());
        push_error(&mut ctx.errors, e);
    }
    let separators = separators_until_next_word(ctx);
    if is_list_item_and_closing_parenthesis(word, p, separators.as_slice()) {
        let rest = rest_of(&separators);
        proof {
            assert forall|j: int| 0 <= j < rest@.len() implies valid_pos(ctx.par(), #[trigger] positions_view(rest@)[j]) by {
                assert(positions_view(rest@)[j] == positions_view(separators@)[j + 1]);
            }
        }
        push_and_pop_quotes(ctx, rest.as_slice());
        return CapState::DontCare;
    }
    push_and_pop_quotes(ctx, separators.as_slice());
    if ctx.quotes.len() > 0 {
        return CapState::Quoted;
    }
    if contains_token_text(p, separators.as_slice(), "\t") || place_name_in_institution_name(
        word,
        p,
        separators.as_slice(),
    ) {
        return CapState::DontCare;
    }
    if last_punctuation_ends_sentence(p, separators.as_slice()) {
        ctx.sentence_ended = true;
        return CapState::Upper;
    }
    CapState::Lower
}

/// Either case is fine for the next word.
fn in_dont_care(ctx: &mut CapitalizationContext) -> (r: CapState)
    requires
        ready(old(ctx)),
    ensures
        (final(ctx).scan(), r) == dont_care_step(old(ctx).par(), *old(ctx).options, old(ctx).scan()),
        final(ctx).paragraph == old(ctx).paragraph,
        final(ctx).options == old(ctx).options,
{
    let w = match ctx.next_word {
        None => {
            return CapState::DontCare;
        },
        Some(w) => w,
    };
    let p = ctx.paragraph;
    let word = &p.sentences[w.0].tokens[w.1];
    let separators = separators_until_next_word(ctx);
    if is_list_item_and_closing_parenthesis(word, p, separators.as_slice()) {
        let rest = rest_of(&separators);
        proof {
            assert forall|j: int| 0 <= j < rest@.len() implies valid_pos(ctx.par(), #[trigger] positions_view(rest@)[j]) by {
                assert(positions_view(rest@)[j] == positions_view(separators@)[j + 1]);
            }
        }
        push_and_pop_quotes(ctx, rest.as_slice());
        return CapState::DontCare;
    }
    push_and_pop_quotes(ctx, separators.as_slice());
    if ctx.quotes.len() > 0 {
        return CapState::Quoted;
    }
    if contains_token_text(p, separators.as_slice(), "\t") {
        return CapState::DontCare;
    }
    if ctx.options.accept_titles_in_gc && is_chapter_number(word.text.as_slice()) {
        return CapState::DontCare;
    }
    if last_punctuation_ends_sentence(p, separators.as_slice()) {
        ctx.sentence_ended = true;
        return CapState::Upper;
    }
    CapState::Lower
}

/// Inside a quotation or parentheses.
fn in_quoted(ctx: &mut CapitalizationContext) -> (r: CapState)
    requires
        ready(old(ctx)),
    ensures
        (final(ctx).scan(), r) == quoted_step(old(ctx).par(), old(ctx).scan()),
        final(ctx).paragraph == old(ctx).paragraph,
        final(ctx).options == old(ctx).options,
{
    let p = ctx.paragraph;
    let separators = separators_until_next_word(ctx);
    let had_quotes = push_and_pop_quotes(ctx, separators.as_slice());
    if ctx.quotes.len() > 0 {
        return CapState::Quoted;
    }
    if last_punctuation_ends_sentence(p, separators.as_slice()) {
        ctx.sentence_ended = false;
        return CapState::Upper;
    }
    if had_quotes || ctx.sentence_ended {
        ctx.sentence_ended = false;
        return CapState::DontCare;
    }
    CapState::Lower
}

/// Capitalization errors in a paragraph: a word that should start a
/// sentence with an upper-case letter, a word written with a lower-case
/// letter inside a sentence, and a closing parenthesis with nothing open.
/// Sentences written in upper case are left out.
pub fn gc_capitalization(paragraph: &Paragraph, options: &GrammarOptions) -> (r: Vec<GrammarError>)
    ensures
        errors_view(r@) == capitalization_errors(*paragraph, *options),
{
    let mut ctx = CapitalizationContext {
        paragraph,
        options,
        current_sentence: 0,
        current_token: 0,
        token_before_next_word: None,
        next_word: None,
        quotes: Vec::new(),
        sentence_ended: false,
        errors: Vec::new(),
    };
    let mut state = CapState::Initial;
    proof {
        assert(ctx.scan().quotes =~= Seq::<char>::empty());
        assert(ctx.scan().errors =~= Seq::<ErrorView>::empty());
        assert(ctx.scan() == cap_start());
    }
    while ctx.current_sentence < ctx.paragraph.sentences.len() && ctx.current_token
        < ctx.paragraph.sentences[ctx.current_sentence].tokens.len()
        invariant
            ctx.par() == *paragraph,
            ctx.options == options,
            cap_inv(*paragraph, ctx.scan(), state),
            run_from(*paragraph, *options, ctx.scan(), state) == capitalization_errors(*paragraph, *options),
        decreases cap_measure(*paragraph, ctx.scan()),
    {
        let ghost c = ctx.scan();
        let ghost st = state;
        proof {
            lemma_step(*paragraph, *options, c, st);
        }
        state = match state {
            CapState::Initial => in_initial(&mut ctx),
            CapState::Upper => in_upper(&mut ctx),
            CapState::Lower => in_lower(&mut ctx),
            CapState::DontCare => in_dont_care(&mut ctx),
            CapState::Quoted => in_quoted(&mut ctx),
        };
        assert((ctx.scan(), state) == cap_step(*paragraph, *options, c, st));
    }
    ctx.errors
}

proof fn lemma_advance_all_skipped(p: Paragraph, c: CapScan)
    requires
        cursor_ok(c, p),
        forall|k: int| c.cs <= k < p.sentences@.len() ==> sentence_skipped(#[trigger] p.sentences@[k]),
    ensures
        advance(p, c).0 is None,
        advance(p, c).1.cs >= p.sentences@.len(),
    decreases p.sentences@.len() - c.cs,
{
    if 0 <= c.cs < p.sentences@.len() {
        assert(sentence_skipped(p.sentences@[c.cs]));
        lemma_advance_all_skipped(p, CapScan { cs: c.cs + 1, ..c });
    }
}

/// A paragraph whose sentences are all left out of the check (written in
/// upper case, or with a foreign quotation mark first) gets no
/// capitalization errors.
pub proof fn lemma_skipped_paragraph_has_no_errors(p: Paragraph, opts: GrammarOptions)
    requires
        forall|k: int| 0 <= k < p.sentences@.len() ==> sentence_skipped(#[trigger] p.sentences@[k]),
    ensures
        capitalization_errors(p, opts) == Seq::<ErrorView>::empty(),
{
    let c = cap_start();
    assert(cap_inv(p, c, CapState::Initial));
    if live(c, p) {
        let start = CapScan { before: c.next, ..c };
        lemma_advance_all_skipped(p, start);
        lemma_advance(p, start);
        let u = until_next_word(p, c);
        assert(u.0 == Seq::<SPos>::empty());
        let c2 = apply_quotes(p, u.0, u.1).0;
        assert(c2.errors == Seq::<ErrorView>::empty());
        lemma_step(p, opts, c, CapState::Initial);
        let r = cap_step(p, opts, c, CapState::Initial);
        assert(r.0 == c2);
        assert(!live(c2, p));
        assert(run_from(p, opts, c, CapState::Initial) == run_from(p, opts, r.0, r.1));
        assert(run_from(p, opts, r.0, r.1) == r.0.errors);
    } else {
        assert(run_from(p, opts, c, CapState::Initial) == c.errors);
    }
}

/// Whether the token at `pos` is punctuation other than a comma.
pub open spec fn non_comma_punctuation(p: Paragraph, pos: SPos) -> bool {
    let t = tok(p, pos);
    t.token_type == TokenType::Punctuation && !(t.text@.len() > 0 && t.text@[0] == ',')
}

proof fn lemma_last_punct_ends_skip(p: Paragraph, seps: Seq<SPos>, k: int, j: int)
    requires
        0 <= k < j <= seps.len(),
        forall|m: int| k < m < seps.len() ==> !non_comma_punctuation(p, #[trigger] seps[m]),
    ensures
        last_punct_ends_upto(p, seps, j) == last_punct_ends_upto(p, seps, k + 1),
    decreases j,
{
    if j > k + 1 {
        assert(!non_comma_punctuation(p, seps[j - 1]));
        lemma_last_punct_ends_skip(p, seps, k, j - 1);
    }
}

/// The last punctuation between two words, commas aside, ends a sentence
/// exactly when its first character is a full stop, a question mark or an
/// exclamation mark.
pub proof fn lemma_last_punctuation_ends_sentence(p: Paragraph, seps: Seq<SPos>, k: int)
    requires
        0 <= k < seps.len(),
        non_comma_punctuation(p, seps[k]),
        forall|m: int| k < m < seps.len() ==> !non_comma_punctuation(p, #[trigger] seps[m]),
    ensures
        last_punct_ends(p, seps) <==> {
            let t = tok(p, seps[k]);
            t.text@.len() > 0 && (t.text@[0] == '.' || t.text@[0] == '?' || t.text@[0] == '!')
        },
{
    lemma_last_punct_ends_skip(p, seps, k, seps.len() as int);
}

/// Between two words with no punctuation other than commas, nothing ends a
/// sentence.
pub proof fn lemma_no_punctuation_ends_no_sentence(p: Paragraph, seps: Seq<SPos>, j: int)
    requires
        0 <= j <= seps.len(),
        forall|m: int| 0 <= m < j ==> !non_comma_punctuation(p, #[trigger] seps[m]),
    ensures
        !last_punct_ends_upto(p, seps, j),
    decreases j,
{
    if j > 0 {
        assert(!non_comma_punctuation(p, seps[j - 1]));
        lemma_no_punctuation_ends_no_sentence(p, seps, j - 1);
    }
}

} // verus!

