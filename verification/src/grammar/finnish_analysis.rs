//! Grammar flags of a token from the morphological analyses of its word.

use vstd::prelude::*;
use crate::analysis::{
    Analysis, ATTR_CLASS, ATTR_MOOD, ATTR_NEGATIVE, ATTR_PARTICIPLE, ATTR_PERSON,
    ATTR_POSSIBLE_GEOGRAPHICAL_NAME, ATTR_REQUIRE_FOLLOWING_VERB, ATTR_SIJAMUOTO, ATTR_STRUCTURE,
};
use crate::enums::TokenType;
use crate::grammar::paragraph::{FollowingVerbType, GrammarToken, strip_soft_hyphens};
use crate::text::without_soft_hyphens;
use crate::morphology::{Analyzer, analyses_view, analyzer_answer, ask_analyzer};
use crate::text::str_eq;

verus! {

/// An attribute of an analysis, if present.
pub open spec fn attr(a: Map<Seq<char>, Seq<char>>, key: Seq<char>) -> Option<Seq<char>> {
    if a.contains_key(key) {
        Some(a[key])
    } else {
        None
    }
}

/// The analysis has the attribute with the given value.
pub open spec fn attr_is(a: Map<Seq<char>, Seq<char>>, key: Seq<char>, value: Seq<char>) -> bool {
    attr(a, key) == Some(value)
}

/// The STRUCTURE of the analysis says the word starts with a lower-case
/// letter (its second code is `p` or `q`).
pub open spec fn lowercase_structure(a: Map<Seq<char>, Seq<char>>) -> bool {
    let st = if a.contains_key(ATTR_STRUCTURE@) {
        a[ATTR_STRUCTURE@]
    } else {
        Seq::empty()
    };
    st.len() >= 2 && (st[1] == 'p' || st[1] == 'q')
}

/// The reading is a conjunction: a "sidesana", or a negative verb ending in
/// `ä` ("enkä", "eikä" = "ja en", "ja ei").
pub open spec fn conjunction_reading(a: Map<Seq<char>, Seq<char>>, text: Seq<char>) -> bool {
    attr_is(a, ATTR_CLASS@, "sidesana"@) || (attr_is(a, ATTR_CLASS@, "kieltosana"@) && text.len() > 0
        && text.last() == '\u{e4}')
}

/// The reading is a verb that can only be positive.
pub open spec fn positive_verb_reading(a: Map<Seq<char>, Seq<char>>) -> bool {
    &&& attr_is(a, ATTR_CLASS@, "teonsana"@)
    &&& attr_is(a, ATTR_NEGATIVE@, "false"@)
    &&& !((attr(a, ATTR_MOOD@) is None || attr_is(a, ATTR_MOOD@, "conditional"@)) && (attr(
        a,
        ATTR_PERSON@,
    ) is None || attr_is(a, ATTR_PERSON@, "3"@)))
}

/// The reading may be the main verb: no word class, or a verb that is
/// neither an A- or E-infinitive nor negative.
pub open spec fn possible_main_verb_reading(a: Map<Seq<char>, Seq<char>>) -> bool {
    attr(a, ATTR_CLASS@) is None || (attr_is(a, ATTR_CLASS@, "teonsana"@) && !attr_is(
        a,
        ATTR_MOOD@,
        "A-infinitive"@,
    ) && !attr_is(a, ATTR_MOOD@, "E-infinitive"@) && !attr_is(a, ATTR_NEGATIVE@, "true"@))
}

/// The reading is a verb in the indicative.
pub open spec fn main_verb_reading(a: Map<Seq<char>, Seq<char>>) -> bool {
    attr_is(a, ATTR_CLASS@, "teonsana"@) && attr_is(a, ATTR_MOOD@, "indicative"@)
}

/// The reading is a geographical name in the genitive written with a
/// capital.
pub open spec fn geographical_genitive_reading(a: Map<Seq<char>, Seq<char>>) -> bool {
    !lowercase_structure(a) && attr_is(a, ATTR_CLASS@, "paikannimi"@) && attr_is(
        a,
        ATTR_SIJAMUOTO@,
        "omanto"@,
    )
}

/// The infinitive named by a value of REQUIRE_FOLLOWING_VERB or MOOD.
pub open spec fn infinitive_of(v: Option<Seq<char>>) -> FollowingVerbType {
    if v == Some("A-infinitive"@) {
        FollowingVerbType::AInfinitive
    } else if v == Some("MA-infinitive"@) {
        FollowingVerbType::MaInfinitive
    } else {
        FollowingVerbType::NoVerb
    }
}

/// The reading is an agent participle in the abessive.
pub open spec fn agent_abessive_reading(a: Map<Seq<char>, Seq<char>>) -> bool {
    attr_is(a, ATTR_PARTICIPLE@, "agent"@) && attr_is(a, ATTR_SIJAMUOTO@, "vajanto"@)
}

/// The infinitive that all readings require after the word; none when they
/// disagree.
pub open spec fn required_following(an: Seq<Map<Seq<char>, Seq<char>>>) -> FollowingVerbType {
    if an.len() > 0 && forall|k: int|
        0 <= k < an.len() ==> infinitive_of(#[trigger] attr(an[k], ATTR_REQUIRE_FOLLOWING_VERB@))
            == infinitive_of(attr(an[0], ATTR_REQUIRE_FOLLOWING_VERB@)) {
        infinitive_of(attr(an[0], ATTR_REQUIRE_FOLLOWING_VERB@))
    } else {
        FollowingVerbType::NoVerb
    }
}

/// The infinitive that the word is as a follower, read from the readings
/// from `i` on: the first infinitive mood seen is kept while no reading
/// has another one; another infinitive, or an agent participle in the
/// abessive, clears it.
pub open spec fn follower_from(
    an: Seq<Map<Seq<char>, Seq<char>>>,
    i: int,
    cur: FollowingVerbType,
    seen: bool,
) -> FollowingVerbType
    decreases an.len() - i,
{
    if i < 0 || i >= an.len() {
        cur
    } else {
        let ft = infinitive_of(attr(an[i], ATTR_MOOD@));
        if ft != FollowingVerbType::NoVerb {
            if !seen {
                follower_from(an, i + 1, ft, true)
            } else if cur != ft {
                follower_from(an, i + 1, FollowingVerbType::NoVerb, true)
            } else {
                follower_from(an, i + 1, cur, true)
            }
        } else if agent_abessive_reading(an[i]) {
            follower_from(an, i + 1, FollowingVerbType::NoVerb, seen)
        } else {
            follower_from(an, i + 1, cur, seen)
        }
    }
}

/// The token with its grammar flags set from the analyses of its word.
/// A token that is not a word gets no analysis flags (it keeps the
/// positive and main verb flags, which no reading has contradicted).
pub open spec fn annotated(t: GrammarToken, an: Seq<Map<Seq<char>, Seq<char>>>) -> GrammarToken {
    if t.token_type != TokenType::Word {
        GrammarToken {
            is_valid_word: false,
            first_letter_lcase: false,
            possible_sentence_start: false,
            is_geographical_name_in_genitive: false,
            possible_geographical_name: false,
            possible_main_verb: false,
            is_main_verb: true,
            is_verb_negative: false,
            is_positive_verb: true,
            is_conjunction: false,
            possible_conjunction: false,
            require_following_verb: FollowingVerbType::NoVerb,
            verb_follower_type: FollowingVerbType::NoVerb,
            ..t
        }
    } else {
        let known = an.len() > 0;
        GrammarToken {
            is_valid_word: known,
            first_letter_lcase: forall|k: int| 0 <= k < an.len() ==> #[trigger] lowercase_structure(an[k]),
            possible_sentence_start: false,
            is_geographical_name_in_genitive: exists|k: int|
                0 <= k < an.len() && #[trigger] geographical_genitive_reading(an[k]),
            possible_geographical_name: exists|k: int|
                0 <= k < an.len() && #[trigger] attr_is(an[k],
                    ATTR_POSSIBLE_GEOGRAPHICAL_NAME@,
                    "true"@,
                ),
            possible_main_verb: exists|k: int| 0 <= k < an.len() && #[trigger] possible_main_verb_reading(an[k]),
            is_main_verb: known && forall|k: int| 0 <= k < an.len() ==> #[trigger] main_verb_reading(an[k]),
            is_verb_negative: known && forall|k: int|
                0 <= k < an.len() ==> #[trigger] attr_is(an[k], ATTR_CLASS@, "kieltosana"@),
            is_positive_verb: known && forall|k: int| 0 <= k < an.len() ==> #[trigger] positive_verb_reading(an[k]),
            is_conjunction: known && forall|k: int|
                0 <= k < an.len() ==> #[trigger] conjunction_reading(an[k], t.text@),
            possible_conjunction: exists|k: int|
                0 <= k < an.len() && #[trigger] conjunction_reading(an[k], t.text@),
            require_following_verb: required_following(an),
            verb_follower_type: follower_from(an, 0, FollowingVerbType::NoVerb, false),
            ..t
        }
    }
}

/// One more reading in `required_following`.
proof fn lemma_required_step(an: Seq<Map<Seq<char>, Seq<char>>>, i: int)
    requires
        0 <= i < an.len(),
    ensures
        required_following(an.take(i + 1)) == ({
            let r = infinitive_of(attr(an[i], ATTR_REQUIRE_FOLLOWING_VERB@));
            let prev = required_following(an.take(i));
            if r == FollowingVerbType::NoVerb || i == 0 {
                r
            } else if prev != r {
                FollowingVerbType::NoVerb
            } else {
                prev
            }
        }),
{
    let p = an.take(i);
    let q = an.take(i + 1);
    let r = infinitive_of(attr(an[i], ATTR_REQUIRE_FOLLOWING_VERB@));
    assert(q[i] == an[i]);
    assert forall|k: int| 0 <= k < i implies #[trigger] q[k] == p[k] by {}
    if i > 0 {
        assert(q[0] == p[0]);
        let r0 = infinitive_of(attr(p[0], ATTR_REQUIRE_FOLLOWING_VERB@));
        let allp = forall|k: int| 0 <= k < p.len() ==> infinitive_of(#[trigger] attr(p[k], ATTR_REQUIRE_FOLLOWING_VERB@)) == r0;
        let allq = forall|k: int| 0 <= k < q.len() ==> infinitive_of(#[trigger] attr(q[k], ATTR_REQUIRE_FOLLOWING_VERB@)) == r0;
        if allq {
            assert(allp) by {
                assert forall|k: int| 0 <= k < p.len() implies infinitive_of(#[trigger] attr(p[k], ATTR_REQUIRE_FOLLOWING_VERB@)) == r0 by {
                    assert(q[k] == p[k]);
                    assert(infinitive_of(attr(q[k], ATTR_REQUIRE_FOLLOWING_VERB@)) == r0);
                }
            }
            assert(infinitive_of(attr(q[i], ATTR_REQUIRE_FOLLOWING_VERB@)) == r0);
        } else {
            let k = choose|k: int| 0 <= k < q.len() && infinitive_of(#[trigger] attr(q[k], ATTR_REQUIRE_FOLLOWING_VERB@)) != r0;
            if k < i {
                assert(q[k] == p[k]);
                assert(!allp);
            }
        }
    } else {
        assert(q.len() == 1);
        assert forall|k: int| 0 <= k < q.len() implies infinitive_of(#[trigger] attr(q[k], ATTR_REQUIRE_FOLLOWING_VERB@)) == infinitive_of(attr(q[0], ATTR_REQUIRE_FOLLOWING_VERB@)) by {}
    }
}

/// One more reading in `follower_from`.
proof fn lemma_follower_step(
    an: Seq<Map<Seq<char>, Seq<char>>>,
    i: int,
    cur: FollowingVerbType,
    seen: bool,
)
    requires
        0 <= i < an.len(),
    ensures
        follower_from(an, i, cur, seen) == ({
            let ft = infinitive_of(attr(an[i], ATTR_MOOD@));
            if ft != FollowingVerbType::NoVerb {
                if !seen {
                    follower_from(an, i + 1, ft, true)
                } else if cur != ft {
                    follower_from(an, i + 1, FollowingVerbType::NoVerb, true)
                } else {
                    follower_from(an, i + 1, cur, true)
                }
            } else if agent_abessive_reading(an[i]) {
                follower_from(an, i + 1, FollowingVerbType::NoVerb, seen)
            } else {
                follower_from(an, i + 1, cur, seen)
            }
        }),
{
}

/// Whether the analysis has the attribute with the given value.
fn attr_eq(a: &Analysis, key: &str, value: &str) -> (r: bool)
    ensures
        r == attr_is(a@, key@, value@),
{
    match a.get(key) {
        Some(v) => str_eq(v, value),
        None => false,
    }
}

/// Whether the analysis has the attribute.
fn has_attr(a: &Analysis, key: &str) -> (r: bool)
    ensures
        r == (attr(a@, key@) is Some),
{
    a.get(key).is_some()
}

/// The infinitive named by an attribute of the analysis.
fn infinitive_attr(a: &Analysis, key: &str) -> (r: FollowingVerbType)
    ensures
        r == infinitive_of(attr(a@, key@)),
{
    if attr_eq(a, key, "A-infinitive") {
        FollowingVerbType::AInfinitive
    } else if attr_eq(a, key, "MA-infinitive") {
        FollowingVerbType::MaInfinitive
    } else {
        FollowingVerbType::NoVerb
    }
}

/// Whether the STRUCTURE of the analysis starts the word in lower case.
fn structure_is_lowercase(a: &Analysis) -> (r: bool)
    ensures
        r == lowercase_structure(a@),
{
    match a.get(ATTR_STRUCTURE) {
        Some(st) => {
            let n = st.unicode_len();
            if n < 2 {
                false
            } else {
                let c = st.get_char(1);
                c == 'p' || c == 'q'
            }
        },
        None => false,
    }
}

/// Whether the reading is a geographical name in the genitive written with
/// a capital.
fn is_geographical_genitive(a: &Analysis) -> (r: bool)
    ensures
        r == geographical_genitive_reading(a@),
{
    !structure_is_lowercase(a) && attr_eq(a, ATTR_CLASS, "paikannimi") && attr_eq(a, ATTR_SIJAMUOTO, "omanto")
}

/// Whether the reading is a conjunction; `ends_with_a_umlaut` tells
/// whether the word ends with `ä`.
fn is_conjunction_reading(a: &Analysis, ends_with_a_umlaut: bool) -> (r: bool)
    ensures
        forall|text: Seq<char>|
            ends_with_a_umlaut == (text.len() > 0 && text.last() == '\u{e4}') ==> r == #[trigger] conjunction_reading(a@, text),
{
    attr_eq(a, ATTR_CLASS, "sidesana") || (attr_eq(a, ATTR_CLASS, "kieltosana") && ends_with_a_umlaut)
}

/// Whether the reading is a verb that can only be positive.
fn is_positive_verb_reading(a: &Analysis) -> (r: bool)
    ensures
        r == positive_verb_reading(a@),
{
    let mood_none = !has_attr(a, ATTR_MOOD);
    let person_none = !has_attr(a, ATTR_PERSON);
    attr_eq(a, ATTR_CLASS, "teonsana") && attr_eq(a, ATTR_NEGATIVE, "false") && !((mood_none || attr_eq(
        a,
        ATTR_MOOD,
        "conditional",
    )) && (person_none || attr_eq(a, ATTR_PERSON, "3")))
}

/// Whether the reading may be the main verb.
fn is_possible_main_verb_reading(a: &Analysis) -> (r: bool)
    ensures
        r == possible_main_verb_reading(a@),
{
    !has_attr(a, ATTR_CLASS) || (attr_eq(a, ATTR_CLASS, "teonsana") && !attr_eq(a, ATTR_MOOD, "A-infinitive")
        && !attr_eq(a, ATTR_MOOD, "E-infinitive") && !attr_eq(a, ATTR_NEGATIVE, "true"))
}

/// Whether the reading is a verb in the indicative.
fn is_main_verb_reading(a: &Analysis) -> (r: bool)
    ensures
        r == main_verb_reading(a@),
{
    attr_eq(a, ATTR_CLASS, "teonsana") && attr_eq(a, ATTR_MOOD, "indicative")
}

/// Set the grammar flags of a token from the analyses of its word (none
/// for an unknown word).
pub fn annotate_token(token: &mut GrammarToken, analyses: &Vec<Analysis>)
    ensures
        *final(token) == annotated(*old(token), analyses_view(analyses@)),
{
    let ghost an = analyses_view(analyses@);
    token.is_valid_word = false;
    token.possible_sentence_start = false;
    token.is_geographical_name_in_genitive = false;
    token.possible_geographical_name = false;
    token.possible_main_verb = false;
    token.possible_conjunction = false;
    token.is_main_verb = true;
    token.is_verb_negative = true;
    token.is_positive_verb = true;
    token.is_conjunction = true;
    token.require_following_verb = FollowingVerbType::NoVerb;
    token.verb_follower_type = FollowingVerbType::NoVerb;
    if token.token_type != TokenType::Word {
        token.first_letter_lcase = false;
        token.is_conjunction = false;
        token.is_verb_negative = false;
        return ;
    }
    let ends_with_a_umlaut = token.text.len() > 0 && token.text[token.text.len() - 1] == '\u{e4}';
    let ghost text = token.text@;
    let mut lcase = true;
    let mut geo_genitive = false;
    let mut possible_geo = false;
    let mut possible_main = false;
    let mut main = true;
    let mut negative = true;
    let mut positive = true;
    let mut conjunction = true;
    let mut possible_conjunction = false;
    let mut required = FollowingVerbType::NoVerb;
    let mut follower = FollowingVerbType::NoVerb;
    let mut follower_seen = false;
    let mut i: usize = 0;
    while i < analyses.len()
        invariant
            an == analyses_view(analyses@),
            i <= analyses@.len(),
            ends_with_a_umlaut == (text.len() > 0 && text.last() == '\u{e4}'),
            lcase == forall|k: int| 0 <= k < i ==> #[trigger] lowercase_structure(an[k]),
            geo_genitive == exists|k: int| 0 <= k < i && #[trigger] geographical_genitive_reading(an[k]),
            possible_geo == exists|k: int|
                0 <= k < i && #[trigger] attr_is(an[k], ATTR_POSSIBLE_GEOGRAPHICAL_NAME@, "true"@),
            possible_main == exists|k: int| 0 <= k < i && #[trigger] possible_main_verb_reading(an[k]),
            main == forall|k: int| 0 <= k < i ==> #[trigger] main_verb_reading(an[k]),
            negative == forall|k: int| 0 <= k < i ==> #[trigger] attr_is(an[k], ATTR_CLASS@, "kieltosana"@),
            positive == forall|k: int| 0 <= k < i ==> #[trigger] positive_verb_reading(an[k]),
            conjunction == forall|k: int| 0 <= k < i ==> #[trigger] conjunction_reading(an[k], text),
            possible_conjunction == exists|k: int| 0 <= k < i && #[trigger] conjunction_reading(an[k], text),
            required == required_following(an.take(i as int)),
            follower_from(an, i as int, follower, follower_seen) == follower_from(
                an,
                0,
                FollowingVerbType::NoVerb,
                false,
            ),
        decreases analyses.len() - i,
    {
        let a = &analyses[i];
        let ghost ai = an[i as int];
        assert(ai == a@);
        lcase = lcase && structure_is_lowercase(a);
        geo_genitive = geo_genitive || is_geographical_genitive(a);
        let conj = is_conjunction_reading(a, ends_with_a_umlaut);
        assert(conj == conjunction_reading(ai, text));
        possible_conjunction = possible_conjunction || conj;
        conjunction = conjunction && conj;
        positive = positive && is_positive_verb_reading(a);
        possible_main = possible_main || is_possible_main_verb_reading(a);
        main = main && is_main_verb_reading(a);
        negative = negative && attr_eq(a, ATTR_CLASS, "kieltosana");
        possible_geo = possible_geo || attr_eq(a, ATTR_POSSIBLE_GEOGRAPHICAL_NAME, "true");
        let req = infinitive_attr(a, ATTR_REQUIRE_FOLLOWING_VERB);
        proof {
            lemma_required_step(an, i as int);
            lemma_follower_step(an, i as int, follower, follower_seen);
        }
        if req == FollowingVerbType::NoVerb || i == 0 {
            required = req;
        } else if required != req {
            required = FollowingVerbType::NoVerb;
        }
        let ft = infinitive_attr(a, ATTR_MOOD);
        if ft != FollowingVerbType::NoVerb {
            if !follower_seen {
                follower = ft;
                follower_seen = true;
            } else if follower != ft {
                follower = FollowingVerbType::NoVerb;
            }
        } else if attr_eq(a, ATTR_PARTICIPLE, "agent") && attr_eq(a, ATTR_SIJAMUOTO, "vajanto") {
            follower = FollowingVerbType::NoVerb;
        }
        i += 1;
    }
    proof {
        assert(an.take(i as int) =~= an);
    }
    let known = analyses.len() > 0;
    token.is_valid_word = known;
    token.first_letter_lcase = lcase;
    token.is_geographical_name_in_genitive = geo_genitive;
    token.possible_geographical_name = possible_geo;
    token.possible_main_verb = possible_main;
    token.is_main_verb = known && main;
    token.is_verb_negative = known && negative;
    token.is_positive_verb = known && positive;
    token.is_conjunction = known && conjunction;
    token.possible_conjunction = possible_conjunction;
    token.require_following_verb = required;
    token.verb_follower_type = follower;
}

/// Set the grammar flags of a token from what the analyzer gives for its
/// word without soft hyphens. The flags are those that the analyses give
/// which the analyzer may answer for that word; a token that is no word
/// gets the flags of no analysis.
pub fn analyse_token<A: Analyzer>(token: &mut GrammarToken, analyzer: &A)
    ensures
        old(token).token_type != TokenType::Word ==> *final(token) == annotated(*old(token), seq![]),
        old(token).token_type == TokenType::Word ==> exists|v: Seq<Analysis>|
            #[trigger] analyzer_answer(analyzer, without_soft_hyphens(old(token).text@), v)
                && *final(token) == annotated(*old(token), analyses_view(v)),
{
    if token.token_type != TokenType::Word {
        let none: Vec<Analysis> = Vec::new();
        annotate_token(token, &none);
        assert(analyses_view(none@) =~= seq![]);
        return ;
    }
    let word = strip_soft_hyphens(token.text.as_slice());
    let analyses = ask_analyzer(analyzer, word.as_slice(), word.len());
    assert(word@.take(word.len() as int) =~= word@);
    assert(analyzer_answer(analyzer, without_soft_hyphens(old(token).text@), analyses@));
    annotate_token(token, &analyses);
}

} // verus!
