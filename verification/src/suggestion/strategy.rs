//! Suggestion strategies: which generators run, in which order, and with
//! how much work allowed; one for typing errors and one for errors of
//! optical character recognition.

use vstd::prelude::*;
use crate::speller::Speller;
use crate::suggestion::status::{SuggestionStatus, StatusView, aborted};
use crate::suggestion::generators::{
    SuggestionGenerator, CaseChange, SoftHyphens, Deletion, Insertion, InsertSpecial, Replacement,
    ReplaceTwo, MultiReplacement, Swap, SplitWord, VowelChange, DeleteTwo, copied, offers,
    case_change_cands, soft_hyphens_cands, deletion_cands, insertion_cands, insert_special_cands,
    replacement_cands, replace_two_cands, multi_cands, swap_cands, split_word_reaches,
    vowel_change_cands, delete_two_cands, lemma_insertion_offers,
};
use crate::character::lowercase_of;

verus! {

/// Keyboard neighbours, most frequent first.
pub const REPLACEMENTS_1: [char; 106] = [
    '.', ',', 'a', 's', 'i', 'u', 'i', 'o', 't', 'r',
    't', 'd', 'e', 'r', 's', '\u{0161}', 's', 'a', 'n', 'm',
    'u', 'i', 'l', 'k', 'k', 'l', 'k', 'g', 'o', 'i',
    '\u{00E4}', '\u{00F6}', 'm', 'n', 'r', 'e', 'r', 't', 'v', 'b',
    'p', 'b', 'p', 'o', 'y', 't', 'h', 'j', 'j', 'h',
    'j', 'k', 'd', 't', 'd', 's', 'd', 'f', '\u{00F6}', '\u{00E4}',
    'g', 'f', 'g', 'h', 'g', 'k', 'f', 'g', 'f', 'd',
    'b', 'p', 'b', 'n', 'c', 'v', 'c', 's', 'w', 'e',
    'w', 'v', 'x', 'c', 'z', '\u{017E}', 'z', 'x', 'q', 'a',
    '\u{00E5}', 'o', '\u{00E5}', 'p', '\u{00E5}', '\u{00E4}', '\u{00E5}', '\u{00F6}', 'a', 'e',
    'i', 'k', 't', 'y', 'e', 'a',
];

/// Number-row neighbours.
pub const REPLACEMENTS_2: [char; 42] = [
    '1', 'q', '2', 'q', '2', 'w', '3', 'w', '3', 'e',
    '4', 'e', '4', 'r', '5', 'r', '5', 't', '6', 't',
    '6', 'y', '7', 'y', '7', 'u', '8', 'u', '8', 'i',
    '9', 'i', '9', 'o', '0', 'o', '0', 'p', '+', 'p',
    'i', 'e',
];

/// Less frequent keyboard neighbours.
pub const REPLACEMENTS_3: [char; 66] = [
    'e', 's', 's', 'd', 'n', 'h', 'u', 'j', 'l', '\u{00F6}',
    'k', 'j', 'o', 'p', '\u{00E4}', 'p', 'm', 'k', 'r', 'd',
    'v', 'g', 'p', 'l', 'y', 'h', 'h', 'u', 'j', 'i',
    'd', 'e', '\u{00F6}', 'l', 'g', 't', 'f', 'v', 'b', 'v',
    'c', 'k', 'w', 'a', 'x', 's', 'z', 'a', 'q', 'k',
    '\u{00E5}', 'a', 'a', '\u{00E5}', 'e', '\u{00E9}', 'a', '\u{00E2}', 'k', 'c',
    's', 'c', 'i', 'j', 'x', 'z',
];

/// The remaining keyboard neighbours.
pub const REPLACEMENTS_4: [char; 138] = [
    'q', 'w', 'q', 's', 'w', 'q', 'w', 's', 'w', 'd',
    'e', 'd', 'e', 'f', 'r', 'f', 'r', 'g', 't', 'f',
    't', 'g', 't', 'h', 'y', 'g', 'y', 'j', 'u', 'h',
    'u', 'k', 'i', 'l', 'o', 'k', 'o', 'l', 'p', '\u{00F6}',
    'p', '\u{00E4}', 's', 'e', 's', 'x', 'd', 'r', 'b', 'g',
    'f', 'e', 'f', 'r', 'f', 't', 'f', 'c', 'g', 'y',
    'g', 'b', 'g', 'v', 'h', 'y', 'h', 'n', 'h', 'b',
    'h', 'g', 'j', 'u', 'j', 'm', 'j', 'n', 'k', 'i',
    'k', 'o', 'k', 'm', 'l', 'o', 'l', 'p', '\u{00F6}', 'p',
    '\u{00F6}', '\u{00E5}', '\u{00E4}', '\u{00E5}', 'z', 's', 'x', 'd', 'c', 'd',
    'c', 'f', 'c', 'x', 'v', 'f', 'b', 'h', 'n', 'j',
    'n', 'b', 'm', 'j', 'e', 'w', 'p', '\u{00E5}', 'a', 'q',
    's', 'w', 's', 'z', 'd', 'w', 'd', 'c', 'd', 'x',
    'v', 'c', 'a', 'w', 'a', 'z', 's', 'q',
];

/// Similar-sounding and similar-looking letters.
pub const REPLACEMENTS_5: [char; 72] = [
    'a', 'o', 'o', 'a', 'o', 'u', 't', 'l', 's', 'r',
    'a', 'i', 'e', '\u{00E4}', '\u{00E4}', 'e', 'u', 'v', 'v', 'u',
    'o', 'd', 'd', 'o', 'k', 'q', 'p', 'v', 'v', 'p',
    'q', 'e', 'e', 'q', 'a', 'd', 'd', 'a', 'r', 's',
    'e', 't', 't', 'e', 'r', 'y', 'y', 'r', 't', 'u',
    'u', 't', 'y', 'i', 'i', 'y', 'u', 'o', 'i', 'p',
    'p', 'i', 'o', '\u{00E5}', 'h', 'v', 'v', 'h', 'h', 'm',
    'm', 'h',
];

/// Characters that optical character recognition confuses.
pub const OCR_REPLACEMENTS: [char; 118] = [
    '0', 'o', 'l', 'i', 'i', 'l', 'u', 'o', 'o', 'u',
    'a', '\u{00E4}', '\u{00E4}', 'a', 'o', '\u{00F6}', '\u{00F6}', 'o', 's', '\u{0161}',
    '\u{0161}', 's', 'z', '\u{017E}', '\u{017E}', 'z', 'e', '\u{00E9}', '\u{00E9}', 'e',
    'a', '\u{00E2}', '\u{00E2}', 'a', 'p', 'b', 'b', 'p', 'e', 'f',
    'f', 'e', 'q', 'o', 'o', 'q', 'n', 'm', 'm', 'n',
    'u', 'v', 'v', 'u', 'o', 'c', 'c', 'o', 'b', 'h',
    'h', 'b', '_', 'a', '_', 'b', '_', 'c', '_', 'd',
    '_', 'e', '_', 'f', '_', 'g', '_', 'h', '_', 'i',
    '_', 'j', '_', 'k', '_', 'l', '_', 'm', '_', 'n',
    '_', 'o', '_', 'p', '_', 'q', '_', 'r', '_', 's',
    '_', 't', '_', 'u', '_', 'v', '_', 'w', '_', 'x',
    '_', 'y', '_', 'z', '_', '\u{00E4}', '_', '\u{00F6}',
];

/// The most frequent Finnish letters, to insert first.
pub const INSERTION_CHARS_PRIMARY: [char; 6] = ['a', 'i', 't', 'e', 's', 'n'];

/// The other letters and marks to insert.
pub const INSERTION_CHARS_SECONDARY: [char; 26] = [
    'u', 'l', 'k', 'o', '\u{00E4}', 'm', 'r', 'v', 'p', 'y',
    'h', 'j', 'd', '\u{00F6}', 'g', 'f', 'b', 'c', 'w', ':',
    'x', 'z', 'q', '\u{00E5}', '\'', '.',
];


/// Which generator, with its table, as plain values.
pub enum GeneratorSpec {
    CaseChange,
    SoftHyphens,
    Deletion,
    Insertion(Seq<char>),
    InsertSpecial,
    Replacement(Seq<char>),
    ReplaceTwo(Seq<char>),
    MultiReplacement(Seq<char>, nat),
    Swap,
    SplitWord,
    VowelChange,
    DeleteTwo,
}

/// One of the suggestion generators.
pub enum Generator {
    CaseChange(CaseChange),
    SoftHyphens(SoftHyphens),
    Deletion(Deletion),
    Insertion(Insertion),
    InsertSpecial(InsertSpecial),
    Replacement(Replacement),
    ReplaceTwo(ReplaceTwo),
    MultiReplacement(MultiReplacement),
    Swap(Swap),
    SplitWord(SplitWord),
    VowelChange(VowelChange),
    DeleteTwo(DeleteTwo),
}

impl View for Generator {
    type V = GeneratorSpec;

    open spec fn view(&self) -> GeneratorSpec {
        match self {
            Generator::CaseChange(_) => GeneratorSpec::CaseChange,
            Generator::SoftHyphens(_) => GeneratorSpec::SoftHyphens,
            Generator::Deletion(_) => GeneratorSpec::Deletion,
            Generator::Insertion(g) => GeneratorSpec::Insertion(g.characters@),
            Generator::InsertSpecial(_) => GeneratorSpec::InsertSpecial,
            Generator::Replacement(g) => GeneratorSpec::Replacement(g.replacements@),
            Generator::ReplaceTwo(g) => GeneratorSpec::ReplaceTwo(g.replacements@),
            Generator::MultiReplacement(g) => GeneratorSpec::MultiReplacement(
                g.replacements@,
                g.replace_count as nat,
            ),
            Generator::Swap(_) => GeneratorSpec::Swap,
            Generator::SplitWord(_) => GeneratorSpec::SplitWord,
            Generator::VowelChange(_) => GeneratorSpec::VowelChange,
            Generator::DeleteTwo(_) => GeneratorSpec::DeleteTwo,
        }
    }
}

/// Whether generator `g` takes the search from `before` to `after`, for
/// answers that `speller` may give.
pub open spec fn generator_reaches<S: Speller>(
    speller: &S,
    g: GeneratorSpec,
    before: StatusView,
    after: StatusView,
) -> bool {
    let w = before.word;
    match g {
        GeneratorSpec::CaseChange => offers(speller, before, case_change_cands(w), after),
        GeneratorSpec::SoftHyphens => offers(speller, before, soft_hyphens_cands(w), after),
        GeneratorSpec::Deletion => offers(speller, before, deletion_cands(w), after),
        GeneratorSpec::Insertion(cs) => offers(speller, before, insertion_cands(w, cs), after),
        GeneratorSpec::InsertSpecial => offers(speller, before, insert_special_cands(w), after),
        GeneratorSpec::Replacement(t) => offers(speller, before, replacement_cands(w, t), after),
        GeneratorSpec::ReplaceTwo(t) => offers(speller, before, replace_two_cands(w, t), after),
        GeneratorSpec::MultiReplacement(t, n) => offers(speller, before, multi_cands(w, t, n), after),
        GeneratorSpec::Swap => offers(speller, before, swap_cands(w), after),
        GeneratorSpec::SplitWord => split_word_reaches(speller, before, after),
        GeneratorSpec::VowelChange => offers(speller, before, vowel_change_cands(w), after),
        GeneratorSpec::DeleteTwo => offers(speller, before, delete_two_cands(w), after),
    }
}

/// Whether running the generators `gens` in order takes the search from
/// `before` to `after`: each runs only while the search is not over.
pub open spec fn runs<S: Speller>(speller: &S, gens: Seq<GeneratorSpec>, before: StatusView, after: StatusView) -> bool
    decreases gens.len(),
{
    if gens.len() == 0 || aborted(before) {
        after == before
    } else {
        exists|mid: StatusView|
            #[trigger] generator_reaches(speller, gens[0], before, mid) && runs(
                speller,
                gens.drop_first(),
                mid,
                after,
            )
    }
}

impl Generator {
    /// Runs this generator on the search.
    pub fn generate<S: Speller>(&self, speller: &S, status: &mut SuggestionStatus<'_>)
        ensures
            generator_reaches(speller, self@, old(status)@, final(status)@),
    {
        match self {
            Generator::CaseChange(g) => g.generate(speller, status),
            Generator::SoftHyphens(g) => g.generate(speller, status),
            Generator::Deletion(g) => g.generate(speller, status),
            Generator::Insertion(g) => g.generate(speller, status),
            Generator::InsertSpecial(g) => g.generate(speller, status),
            Generator::Replacement(g) => g.generate(speller, status),
            Generator::ReplaceTwo(g) => g.generate(speller, status),
            Generator::MultiReplacement(g) => g.generate(speller, status),
            Generator::Swap(g) => g.generate(speller, status),
            Generator::SplitWord(g) => g.generate(speller, status),
            Generator::VowelChange(g) => g.generate(speller, status),
            Generator::DeleteTwo(g) => g.generate(speller, status),
        }
    }
}

/// The generators of a strategy and its work budget, as plain values.
pub struct StrategyView {
    pub max_cost: nat,
    pub primary: Seq<GeneratorSpec>,
    pub secondary: Seq<GeneratorSpec>,
}

/// The generators of a list, as plain values.
pub open spec fn generators_view(gens: Seq<Generator>) -> Seq<GeneratorSpec> {
    gens.map_values(|g: Generator| g@)
}

/// Whether a strategy takes the search from `before` to `after`: the work
/// budget is set, the primary generators run, and the secondary ones run
/// only when the primary ones found nothing.
pub open spec fn strategy_reaches<S: Speller>(
    speller: &S,
    s: StrategyView,
    before: StatusView,
    after: StatusView,
) -> bool {
    let start = StatusView { max_cost: s.max_cost, ..before };
    exists|mid: StatusView|
        #[trigger] runs(speller, s.primary, start, mid) && if mid.found.len() > 0 {
            after == mid
        } else {
            runs(speller, s.secondary, mid, after)
        }
}

/// Primary and secondary generators with a work budget.
pub struct SuggestionStrategy {
    max_cost: usize,
    primary_generators: Vec<Generator>,
    generators: Vec<Generator>,
}

impl View for SuggestionStrategy {
    type V = StrategyView;

    closed spec fn view(&self) -> StrategyView {
        StrategyView {
            max_cost: self.max_cost as nat,
            primary: generators_view(self.primary_generators@),
            secondary: generators_view(self.generators@),
        }
    }
}

/// Runs `gens[i..]` from the current search state.
fn run_all<S: Speller>(
    gens: &Vec<Generator>,
    speller: &S,
    status: &mut SuggestionStatus<'_>,
)
    ensures
        runs(speller, generators_view(gens@), old(status)@, final(status)@),
{
    let ghost g = generators_view(gens@);
    let ghost v = status@;
    proof {
        assert(g.skip(0) =~= g);
    }
    let mut i: usize = 0;
    while i < gens.len()
        invariant_except_break
            forall|x: StatusView|
                #[trigger] runs(speller, g.skip(i as int), status@, x) ==> runs(speller, g, v, x),
        invariant
            g == generators_view(gens@),
            i <= gens@.len(),
            runs(speller, g.skip(i as int), status@, status@) ==> runs(speller, g, v, status@),
        ensures
            runs(speller, g, v, status@),
        decreases gens.len() - i,
    {
        let ghost prev = status@;
        if status.should_abort() {
            proof {
                assert(runs(speller, g.skip(i as int), status@, status@));
            }
            break;
        }
        gens[i].generate(speller, status);
        proof {
            assert(g.skip(i as int)[0] == g[i as int]);
            assert(g.skip(i as int).drop_first() =~= g.skip(i + 1));
            assert forall|x: StatusView| #[trigger]
                runs(speller, g.skip(i + 1), status@, x) implies runs(speller, g, v, x) by {
                assert(generator_reaches(speller, g.skip(i as int)[0], prev, status@));
                assert(runs(speller, g.skip(i as int), prev, x));
            }
        }
        i += 1;
        proof {
            if i == gens.len() {
                assert(g.skip(i as int).len() == 0);
                assert(runs(speller, g.skip(i as int), status@, status@));
            }
        }
    }
    proof {
        if gens.len() == 0 {
            assert(g.skip(0).len() == 0);
        }
    }
}

impl SuggestionStrategy {
    /// Runs the strategy on the search: sets its work budget, runs the
    /// primary generators, and the secondary ones if the primary ones found
    /// nothing.
    pub fn generate<S: Speller>(&self, speller: &S, status: &mut SuggestionStatus<'_>)
        ensures
            strategy_reaches(speller, self@, old(status)@, final(status)@),
    {
        let ghost v = status@;
        status.set_max_cost(self.max_cost);
        let ghost start = status@;
        run_all(&self.primary_generators, speller, status);
        let ghost mid = status@;
        if status.suggestion_count() > 0 {
            proof {
                assert(runs(speller, self@.primary, start, mid));
            }
            return;
        }
        run_all(&self.generators, speller, status);
        proof {
            assert(runs(speller, self@.primary, start, mid));
        }
    }

    /// The primary generators, which run first.
    pub fn primary_generators(&self) -> (r: &Vec<Generator>)
        ensures
            generators_view(r@) == self@.primary,
    {
        &self.primary_generators
    }

    /// The secondary generators, which run when the primary ones found
    /// nothing.
    pub fn generators(&self) -> (r: &Vec<Generator>)
        ensures
            generators_view(r@) == self@.secondary,
    {
        &self.generators
    }
}

/// The secondary generators of the typing strategy, in order.
pub open spec fn typing_secondary() -> Seq<GeneratorSpec> {
    seq![
        GeneratorSpec::VowelChange,
        GeneratorSpec::Replacement(REPLACEMENTS_1@),
        GeneratorSpec::Deletion,
        GeneratorSpec::InsertSpecial,
        GeneratorSpec::SplitWord,
        GeneratorSpec::ReplaceTwo(REPLACEMENTS_1@),
        GeneratorSpec::Replacement(REPLACEMENTS_2@),
        GeneratorSpec::Insertion(INSERTION_CHARS_PRIMARY@),
        GeneratorSpec::Swap,
        GeneratorSpec::Replacement(REPLACEMENTS_3@),
        GeneratorSpec::Insertion(INSERTION_CHARS_SECONDARY@),
        GeneratorSpec::Replacement(REPLACEMENTS_4@),
        GeneratorSpec::ReplaceTwo(REPLACEMENTS_2@),
        GeneratorSpec::ReplaceTwo(REPLACEMENTS_3@),
        GeneratorSpec::ReplaceTwo(REPLACEMENTS_4@),
        GeneratorSpec::DeleteTwo,
        GeneratorSpec::Replacement(REPLACEMENTS_5@),
    ]
}

/// Among the secondary generators of the typing strategy is one that offers
/// the word with any of the frequent letters a, i, t, e, s, n inserted at
/// any position (unless the same letter stands right there or right
/// before, where the same word comes from the neighbouring position), and
/// it runs before every insertion generator that does not insert that
/// letter.
pub proof fn lemma_typing_inserts_frequent_letters(w: Seq<char>, c: char, j: int)
    requires
        c == 'a' || c == 'i' || c == 't' || c == 'e' || c == 's' || c == 'n',
        0 <= j <= w.len(),
        w.len() > 0,
        j < w.len() ==> c != lowercase_of(w[j]),
        j > 0 ==> c != lowercase_of(w[j - 1]) && c != w[j - 1],
    ensures
        exists|k: int|
            0 <= k < typing_secondary().len() && (#[trigger] typing_secondary()[k] matches GeneratorSpec::Insertion(
                cs,
            ) && insertion_cands(w, cs).contains(w.insert(j, c))) && forall|k2: int|
                0 <= k2 < typing_secondary().len() && (#[trigger] typing_secondary()[k2] matches GeneratorSpec::Insertion(
                    cs2,
                ) && !cs2.contains(c)) ==> k < k2,
{
    let cs = INSERTION_CHARS_PRIMARY@;
    assert(typing_secondary()[7] == GeneratorSpec::Insertion(cs));
    assert(cs =~= seq!['a', 'i', 't', 'e', 's', 'n']);
    if c == 'a' {
        assert(cs[0] == c);
    } else if c == 'i' {
        assert(cs[1] == c);
    } else if c == 't' {
        assert(cs[2] == c);
    } else if c == 'e' {
        assert(cs[3] == c);
    } else if c == 's' {
        assert(cs[4] == c);
    } else {
        assert(cs[5] == c);
    }
    lemma_insertion_offers(w, cs, c, j);
    assert forall|k2: int|
        0 <= k2 < typing_secondary().len() && (#[trigger] typing_secondary()[k2] matches GeneratorSpec::Insertion(
            cs2,
        ) && !cs2.contains(c)) implies 7 < k2 by {
        if k2 <= 7 {
            assert(k2 == 7);
        }
    }
}

/// The strategy for typing errors with work budget `max_cost`: case and
/// soft hyphen corrections first, then keyboard edits.
pub fn typing_strategy(max_cost: usize) -> (r: SuggestionStrategy)
    ensures
        r@ == (StrategyView {
            max_cost: max_cost as nat,
            primary: seq![GeneratorSpec::CaseChange, GeneratorSpec::SoftHyphens],
            secondary: typing_secondary(),
        }),
{
    let mut primary_generators: Vec<Generator> = Vec::new();
    primary_generators.push(Generator::CaseChange(CaseChange));
    primary_generators.push(Generator::SoftHyphens(SoftHyphens));
    let mut generators: Vec<Generator> = Vec::new();
    generators.push(Generator::VowelChange(VowelChange));
    generators.push(Generator::Replacement(Replacement { replacements: copied(&REPLACEMENTS_1) }));
    generators.push(Generator::Deletion(Deletion));
    generators.push(Generator::InsertSpecial(InsertSpecial));
    generators.push(Generator::SplitWord(SplitWord));
    generators.push(Generator::ReplaceTwo(ReplaceTwo { replacements: copied(&REPLACEMENTS_1) }));
    generators.push(Generator::Replacement(Replacement { replacements: copied(&REPLACEMENTS_2) }));
    generators.push(Generator::Insertion(Insertion { characters: copied(&INSERTION_CHARS_PRIMARY) }));
    generators.push(Generator::Swap(Swap));
    generators.push(Generator::Replacement(Replacement { replacements: copied(&REPLACEMENTS_3) }));
    generators.push(Generator::Insertion(Insertion { characters: copied(&INSERTION_CHARS_SECONDARY) }));
    generators.push(Generator::Replacement(Replacement { replacements: copied(&REPLACEMENTS_4) }));
    generators.push(Generator::ReplaceTwo(ReplaceTwo { replacements: copied(&REPLACEMENTS_2) }));
    generators.push(Generator::ReplaceTwo(ReplaceTwo { replacements: copied(&REPLACEMENTS_3) }));
    generators.push(Generator::ReplaceTwo(ReplaceTwo { replacements: copied(&REPLACEMENTS_4) }));
    generators.push(Generator::DeleteTwo(DeleteTwo));
    generators.push(Generator::Replacement(Replacement { replacements: copied(&REPLACEMENTS_5) }));
    let r = SuggestionStrategy { max_cost, primary_generators, generators };
    proof {
        assert(generators_view(r.primary_generators@) =~= seq![
            GeneratorSpec::CaseChange,
            GeneratorSpec::SoftHyphens,
        ]);
        assert(generators_view(r.generators@) =~= typing_secondary());
    }
    r
}

/// The strategy for errors of optical character recognition with work
/// budget `max_cost`: case corrections first, then one or two confused
/// characters.
pub fn ocr_strategy(max_cost: usize) -> (r: SuggestionStrategy)
    ensures
        r@ == (StrategyView {
            max_cost: max_cost as nat,
            primary: seq![GeneratorSpec::CaseChange],
            secondary: seq![
                GeneratorSpec::Replacement(OCR_REPLACEMENTS@),
                GeneratorSpec::MultiReplacement(OCR_REPLACEMENTS@, 2),
            ],
        }),
{
    let mut primary_generators: Vec<Generator> = Vec::new();
    primary_generators.push(Generator::CaseChange(CaseChange));
    let mut generators: Vec<Generator> = Vec::new();
    generators.push(Generator::Replacement(Replacement { replacements: copied(&OCR_REPLACEMENTS) }));
    generators.push(
        Generator::MultiReplacement(
            MultiReplacement { replacements: copied(&OCR_REPLACEMENTS), replace_count: 2 },
        ),
    );
    let r = SuggestionStrategy { max_cost, primary_generators, generators };
    proof {
        assert(generators_view(r.primary_generators@) =~= seq![GeneratorSpec::CaseChange]);
        assert(generators_view(r.generators@) =~= seq![
            GeneratorSpec::Replacement(OCR_REPLACEMENTS@),
            GeneratorSpec::MultiReplacement(OCR_REPLACEMENTS@, 2),
        ]);
    }
    r
}

/// The typing strategy with the standard work budget of 800 speller calls.
pub fn default_typing_strategy() -> (r: SuggestionStrategy)
    ensures
        r@ == (StrategyView {
            max_cost: 800,
            primary: seq![GeneratorSpec::CaseChange, GeneratorSpec::SoftHyphens],
            secondary: typing_secondary(),
        }),
{
    typing_strategy(800)
}

/// The OCR strategy with the standard work budget of 2000 speller calls.
pub fn default_ocr_strategy() -> (r: SuggestionStrategy)
    ensures
        r@ == (StrategyView {
            max_cost: 2000,
            primary: seq![GeneratorSpec::CaseChange],
            secondary: seq![
                GeneratorSpec::Replacement(OCR_REPLACEMENTS@),
                GeneratorSpec::MultiReplacement(OCR_REPLACEMENTS@, 2),
            ],
        }),
{
    ocr_strategy(2000)
}

} // verus!
