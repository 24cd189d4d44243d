//! Readability statistics of a text: counts of sentences, words, syllables,
//! characters and punctuation, and of the words known to the analyzer and
//! those whose base form is long. Syllables are counted from hyphenation
//! points.

use vstd::prelude::*;
use crate::analysis::{Analysis, ATTR_BASEFORM};
use crate::enums::{SentenceType, TokenType};
use crate::hyphenator::{hyphenate_answer, FinnishHyphenator, Hyphenator};
use crate::morphology::{analyses_view, analyzer_answer, ask_analyzer, Analyzer};
use crate::text::str_to_chars;
use crate::token::Token;

verus! {

/// The counts from which the readability indices are computed.
pub struct ReadabilityCounts {
    /// Sentences that start with no start marker or a probable one.
    pub sentences: usize,
    /// Word tokens.
    pub words: usize,
    /// Words that the analyzer gives a base form for.
    pub known_words: usize,
    /// Syllables of the words: hyphenation points plus one, per word.
    pub syllables: usize,
    /// Characters of the words.
    pub characters: usize,
    /// Punctuation tokens.
    pub punctuation: usize,
    /// Words whose base form has four syllables or more.
    pub long_words: usize,
}

/// The number of hyphenation points of a pattern: its marks other than
/// `' '`.
pub open spec fn hyphen_points(p: Seq<char>) -> int
    decreases p.len(),
{
    if p.len() == 0 {
        0
    } else {
        hyphen_points(p.drop_last()) + if p.last() != ' ' {
            1int
        } else {
            0
        }
    }
}

/// The syllables of a word whose hyphenation is `p`.
pub open spec fn syllables_of(p: Seq<char>) -> int {
    hyphen_points(p) + 1
}

/// The base form of the first analysis that has one.
pub open spec fn first_baseform(an: Seq<Map<Seq<char>, Seq<char>>>) -> Option<Seq<char>>
    decreases an.len(),
{
    if an.len() == 0 {
        None
    } else if an[0].contains_key(ATTR_BASEFORM@) {
        Some(an[0][ATTR_BASEFORM@])
    } else {
        first_baseform(an.drop_first())
    }
}

/// The syllables of a word's base form, from its analyses `an` and the
/// hyphenation `bp` of that base form; 0 for a word without one.
pub open spec fn baseform_syllables(an: Seq<Analysis>, bp: Seq<char>) -> int {
    if first_baseform(analyses_view(an)) is Some {
        syllables_of(bp)
    } else {
        0
    }
}

/// Whether a sentence start type counts as a sentence.
pub open spec fn counts_as_sentence(t: SentenceType) -> bool {
    t == SentenceType::EndOfText || t == SentenceType::Probable
}

/// Whether a token is a word.
pub open spec fn is_word(t: Token) -> bool {
    t.token_type == TokenType::Word
}

/// The answers for a word `w`: `p` is a hyphenation that `h` may give for
/// it, `an` analyses that `analyzer` may give for it, and, when they give
/// a base form, `bp` a hyphenation that `h` may give for that base form.
pub open spec fn word_answers<A: Analyzer>(
    h: &FinnishHyphenator<A>,
    analyzer: &A,
    w: Seq<char>,
    p: Seq<char>,
    an: Seq<Analysis>,
    bp: Seq<char>,
) -> bool {
    &&& hyphenate_answer(h, w, p)
    &&& analyzer_answer(analyzer, w, an)
    &&& first_baseform(analyses_view(an)) matches Some(b) ==> hyphenate_answer(h, b, bp)
}

/// The answers for every word token of `tokens`, by position.
pub open spec fn readability_answers<A: Analyzer>(
    h: &FinnishHyphenator<A>,
    analyzer: &A,
    tokens: Seq<Token>,
    pats: Seq<Seq<char>>,
    ans: Seq<Seq<Analysis>>,
    bps: Seq<Seq<char>>,
) -> bool {
    &&& pats.len() == tokens.len() && ans.len() == tokens.len() && bps.len() == tokens.len()
    &&& forall|i: int|
        0 <= i < tokens.len() && is_word(tokens[i]) ==> #[trigger] word_answers(
            h,
            analyzer,
            tokens[i].text@,
            pats[i],
            ans[i],
            bps[i],
        )
}

/// Sentences among the first `n` sentence start types.
pub open spec fn sentence_total(types: Seq<SentenceType>, n: int) -> int
    decreases n,
{
    if n <= 0 {
        0
    } else {
        sentence_total(types, n - 1) + if counts_as_sentence(types[n - 1]) {
            1int
        } else {
            0
        }
    }
}

/// Words among the first `n` tokens.
pub open spec fn word_total(tokens: Seq<Token>, n: int) -> int
    decreases n,
{
    if n <= 0 {
        0
    } else {
        word_total(tokens, n - 1) + if is_word(tokens[n - 1]) {
            1int
        } else {
            0
        }
    }
}

/// Punctuation tokens among the first `n` tokens.
pub open spec fn punctuation_total(tokens: Seq<Token>, n: int) -> int
    decreases n,
{
    if n <= 0 {
        0
    } else {
        punctuation_total(tokens, n - 1) + if tokens[n - 1].token_type == TokenType::Punctuation {
            1int
        } else {
            0
        }
    }
}

/// Characters of the words among the first `n` tokens.
pub open spec fn character_total(tokens: Seq<Token>, n: int) -> int
    decreases n,
{
    if n <= 0 {
        0
    } else {
        character_total(tokens, n - 1) + if is_word(tokens[n - 1]) {
            tokens[n - 1].text@.len() as int
        } else {
            0
        }
    }
}

/// Syllables of the words among the first `n` tokens, the word at `i`
/// hyphenated as `pats[i]`.
pub open spec fn syllable_total(tokens: Seq<Token>, pats: Seq<Seq<char>>, n: int) -> int
    decreases n,
{
    if n <= 0 {
        0
    } else {
        syllable_total(tokens, pats, n - 1) + if is_word(tokens[n - 1]) {
            syllables_of(pats[n - 1])
        } else {
            0
        }
    }
}

/// Words among the first `n` tokens whose base form has at least `least`
/// syllables, the word at `i` analysed as `ans[i]` and its base form
/// hyphenated as `bps[i]`.
pub open spec fn baseform_total(
    tokens: Seq<Token>,
    ans: Seq<Seq<Analysis>>,
    bps: Seq<Seq<char>>,
    least: int,
    n: int,
) -> int
    decreases n,
{
    if n <= 0 {
        0
    } else {
        baseform_total(tokens, ans, bps, least, n - 1) + if is_word(tokens[n - 1])
            && baseform_syllables(ans[n - 1], bps[n - 1]) >= least {
            1int
        } else {
            0
        }
    }
}

/// Whether a count of the text goes beyond `usize`: the syllables or the
/// characters.
pub open spec fn counts_overflow(tokens: Seq<Token>, pats: Seq<Seq<char>>) -> bool {
    syllable_total(tokens, pats, tokens.len() as int) > usize::MAX || character_total(
        tokens,
        tokens.len() as int,
    ) > usize::MAX
}

/// The counts of a text with the given answers.
pub open spec fn counts_are(
    c: ReadabilityCounts,
    types: Seq<SentenceType>,
    tokens: Seq<Token>,
    pats: Seq<Seq<char>>,
    ans: Seq<Seq<Analysis>>,
    bps: Seq<Seq<char>>,
) -> bool {
    let n = tokens.len() as int;
    &&& c.sentences == sentence_total(types, types.len() as int)
    &&& c.words == word_total(tokens, n)
    &&& c.known_words == baseform_total(tokens, ans, bps, 1, n)
    &&& c.syllables == syllable_total(tokens, pats, n)
    &&& c.characters == character_total(tokens, n)
    &&& c.punctuation == punctuation_total(tokens, n)
    &&& c.long_words == baseform_total(tokens, ans, bps, 4, n)
}

/// Counting the words' syllables over more answers than the first `n`
/// tokens need gives the same total.
proof fn lemma_syllable_total_frame(tokens: Seq<Token>, pats: Seq<Seq<char>>, x: Seq<char>, n: int)
    requires
        0 <= n <= pats.len(),
    ensures
        syllable_total(tokens, pats.push(x), n) == syllable_total(tokens, pats, n),
    decreases n,
{
    if n > 0 {
        lemma_syllable_total_frame(tokens, pats, x, n - 1);
        assert(pats.push(x)[n - 1] == pats[n - 1]);
    }
}

/// Counting the words by base form over more answers than the first `n`
/// tokens need gives the same total.
proof fn lemma_baseform_total_frame(
    tokens: Seq<Token>,
    ans: Seq<Seq<Analysis>>,
    bps: Seq<Seq<char>>,
    a: Seq<Analysis>,
    b: Seq<char>,
    least: int,
    n: int,
)
    requires
        0 <= n <= ans.len(),
        0 <= n <= bps.len(),
    ensures
        baseform_total(tokens, ans.push(a), bps.push(b), least, n) == baseform_total(tokens, ans, bps, least, n),
    decreases n,
{
    if n > 0 {
        lemma_baseform_total_frame(tokens, ans, bps, a, b, least, n - 1);
        assert(ans.push(a)[n - 1] == ans[n - 1]);
        assert(bps.push(b)[n - 1] == bps[n - 1]);
    }
}

/// The number of hyphenation points of a pattern.
pub fn count_hyphen_points(p: &[char]) -> (r: usize)
    ensures
        r == hyphen_points(p@),
{
    let mut r: usize = 0;
    let mut i: usize = 0;
    while i < p.len()
        invariant
            i <= p.len(),
            r <= i,
            r == hyphen_points(p@.take(i as int)),
        decreases p.len() - i,
    {
        assert(p@.take(i + 1).drop_last() =~= p@.take(i as int));
        if p[i] != ' ' {
            r += 1;
        }
        i += 1;
    }
    assert(p@.take(p.len() as int) =~= p@);
    r
}

/// The hyphenation that `h` gives a word, as characters.
fn hyphenate_chars<A: Analyzer>(h: &FinnishHyphenator<A>, w: &[char]) -> (r: Vec<char>)
    ensures
        hyphenate_answer(h, w@, r@),
{
    let s = h.hyphenate(w);
    let r = str_to_chars(s.as_str());
    assert(hyphenate_answer(h, w@, r@));
    r
}

/// The base form of the first analysis that has one.
pub fn first_baseform_of(an: &Vec<Analysis>) -> (r: Option<&str>)
    ensures
        r is Some <==> first_baseform(analyses_view(an@)) is Some,
        r matches Some(b) ==> first_baseform(analyses_view(an@)) == Some(b@),
{
    let ghost av = analyses_view(an@);
    assert(av.skip(0) =~= av);
    let mut i: usize = 0;
    while i < an.len()
        invariant
            i <= an.len(),
            av == analyses_view(an@),
            first_baseform(av) == first_baseform(av.skip(i as int)),
        decreases an.len() - i,
    {
        let ghost rest = av.skip(i as int);
        assert(rest[0] == an@[i as int]@);
        assert(rest.drop_first() =~= av.skip(i + 1));
        match an[i].get(ATTR_BASEFORM) {
            Some(b) => {
                return Some(b);
            },
            None => {},
        }
        i += 1;
    }
    assert(av.skip(an.len() as int).len() == 0);
    None
}

/// The counts of a text for its readability: the sentences from their
/// start types, and the words, known words, syllables, characters,
/// punctuation and words with a long base form from its tokens. A word's
/// syllables are its hyphenation points plus one; its base form is that of
/// the first analysis that has one, and a word with a base form is known.
/// Every count follows from answers that the hyphenator and the analyzer
/// may give (`readability_answers`); there are none when the syllables or
/// the characters go beyond `usize`.
pub fn readability_counts<A: Analyzer>(
    hyphenator: &FinnishHyphenator<A>,
    analyzer: &A,
    sentence_types: &[SentenceType],
    tokens: &[Token],
) -> (r: Option<ReadabilityCounts>)
    ensures
        exists|pats: Seq<Seq<char>>, ans: Seq<Seq<Analysis>>, bps: Seq<Seq<char>>|
            #[trigger] readability_answers(hyphenator, analyzer, tokens@, pats, ans, bps)
                && (r is None <==> counts_overflow(tokens@, pats))
                && (r matches Some(c) ==> counts_are(c, sentence_types@, tokens@, pats, ans, bps)),
{
    let mut sentences: usize = 0;
    let mut i: usize = 0;
    while i < sentence_types.len()
        invariant
            i <= sentence_types.len(),
            sentences <= i,
            sentences == sentence_total(sentence_types@, i as int),
        decreases sentence_types.len() - i,
    {
        let t = sentence_types[i];
        if t == SentenceType::EndOfText || t == SentenceType::Probable {
            sentences += 1;
        }
        i += 1;
    }
    let mut words: usize = 0;
    let mut known_words: usize = 0;
    let mut long_words: usize = 0;
    let mut punctuation: usize = 0;
    let mut syllables: usize = 0;
    let mut characters: usize = 0;
    let mut overflow = false;
    let ghost mut pats: Seq<Seq<char>> = Seq::empty();
    let ghost mut ans: Seq<Seq<Analysis>> = Seq::empty();
    let ghost mut bps: Seq<Seq<char>> = Seq::empty();
    let mut j: usize = 0;
    while j < tokens.len()
        invariant
            j <= tokens.len(),
            pats.len() == j && ans.len() == j && bps.len() == j,
            forall|k: int|
                0 <= k < j && is_word(tokens@[k]) ==> #[trigger] word_answers(
                    hyphenator,
                    analyzer,
                    tokens@[k].text@,
                    pats[k],
                    ans[k],
                    bps[k],
                ),
            words <= j && known_words <= j && long_words <= j && punctuation <= j,
            words == word_total(tokens@, j as int),
            punctuation == punctuation_total(tokens@, j as int),
            known_words == baseform_total(tokens@, ans, bps, 1, j as int),
            long_words == baseform_total(tokens@, ans, bps, 4, j as int),
            overflow <==> (syllable_total(tokens@, pats, j as int) > usize::MAX || character_total(
                tokens@,
                j as int,
            ) > usize::MAX),
            !overflow ==> syllables == syllable_total(tokens@, pats, j as int) && characters
                == character_total(tokens@, j as int),
        decreases tokens.len() - j,
    {
        let ghost p0 = pats;
        let ghost a0 = ans;
        let ghost b0 = bps;
        let token = &tokens[j];
        let ghost mut p: Seq<char> = Seq::empty();
        let ghost mut a: Seq<Analysis> = Seq::empty();
        let ghost mut bp: Seq<char> = Seq::empty();
        if token.token_type == TokenType::Word {
            let w = str_to_chars(token.text.as_str());
            words += 1;
            let pattern = hyphenate_chars(hyphenator, w.as_slice());
            let points = count_hyphen_points(pattern.as_slice());
            if !overflow {
                match syllables.checked_add(points) {
                    Some(s1) => match s1.checked_add(1) {
                        Some(s2) => {
                            syllables = s2;
                        },
                        None => {
                            overflow = true;
                        },
                    },
                    None => {
                        overflow = true;
                    },
                }
                if !overflow {
                    match characters.checked_add(w.len()) {
                        Some(c) => {
                            characters = c;
                        },
                        None => {
                            overflow = true;
                        },
                    }
                }
            }
            let analyses = ask_analyzer(analyzer, w.as_slice(), w.len());
            proof {
                assert(w@.take(w.len() as int) =~= w@);
            }
            match first_baseform_of(&analyses) {
                Some(b) => {
                    let bw = str_to_chars(b);
                    let base_pattern = hyphenate_chars(hyphenator, bw.as_slice());
                    let base_points = count_hyphen_points(base_pattern.as_slice());
                    known_words += 1;
                    if base_points >= 3 {
                        long_words += 1;
                    }
                    proof {
                        bp = base_pattern@;
                    }
                },
                None => {},
            }
            proof {
                p = pattern@;
                a = analyses@;
                assert(word_answers(hyphenator, analyzer, tokens@[j as int].text@, p, a, bp));
            }
        } else if token.token_type == TokenType::Punctuation {
            punctuation += 1;
        }
        proof {
            pats = p0.push(p);
            ans = a0.push(a);
            bps = b0.push(bp);
            lemma_syllable_total_frame(tokens@, p0, p, j as int);
            lemma_baseform_total_frame(tokens@, a0, b0, a, bp, 1, j as int);
            lemma_baseform_total_frame(tokens@, a0, b0, a, bp, 4, j as int);
            assert forall|k: int|
                0 <= k < j + 1 && is_word(tokens@[k]) implies #[trigger] word_answers(
                hyphenator,
                analyzer,
                tokens@[k].text@,
                pats[k],
                ans[k],
                bps[k],
            ) by {
                if k < j {
                    assert(pats[k] == p0[k] && ans[k] == a0[k] && bps[k] == b0[k]);
                }
            }
        }
        j += 1;
    }
    proof {
        assert(readability_answers(hyphenator, analyzer, tokens@, pats, ans, bps));
    }
    if overflow {
        return None;
    }
    let r = ReadabilityCounts {
        sentences,
        words,
        known_words,
        syllables,
        characters,
        punctuation,
        long_words,
    };
    proof {
        assert(counts_are(r, sentence_types@, tokens@, pats, ans, bps));
    }
    Some(r)
}

} // verus!
