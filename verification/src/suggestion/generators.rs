//! Suggestion generators. Each one builds candidate words from the
//! misspelled word by one kind of edit, offers them to the speller in a
//! fixed order, and keeps those that the speller accepts.
//!
//! A generator's contract names its candidates, in order, as a spec
//! function of the word, and says that the search state after the generator
//! is the one reached by offering exactly those candidates, each candidate
//! that the speller was asked about getting an answer that the speller may
//! give for it (`speller_answer`).

use vstd::prelude::*;
use crate::character::{simple_lower, simple_upper, is_upper, uppercase_of, lowercase_of, spec_is_upper};
use crate::enums::SpellResult;
use crate::speller::{ask_speller, speller_answer, Speller};
use crate::text::{prefix_to_string, SOFT_HYPHEN, without_soft_hyphens};
use crate::grammar::paragraph::strip_soft_hyphens;
use crate::suggestion::status::{
    SuggestionStatus, StatusView, aborted, add_found, charged, extends,
};

verus! {

// ---------------------------------------------------------------------------
// Offering candidates
// ---------------------------------------------------------------------------

/// `w` with its first character in uppercase.
pub open spec fn upper_first(w: Seq<char>) -> Seq<char> {
    if w.len() == 0 {
        w
    } else {
        w.update(0, uppercase_of(w[0]))
    }
}

/// The priority a speller answer gives a suggestion (lower is better).
pub open spec fn priority_of(r: SpellResult) -> i32 {
    match r {
        SpellResult::Correct => 1,
        SpellResult::CapitalizeFirst => 2,
        SpellResult::CapitalizationError => 3,
        SpellResult::Failed => i32::MAX,
    }
}

/// The search state after offering candidate `cand`, for which the speller
/// answers `r`: nothing happens once the search is over; otherwise one
/// speller call is charged and an accepted candidate is kept, with its
/// first letter capitalized where the speller asks for that.
pub open spec fn offer(v: StatusView, cand: Seq<char>, r: SpellResult) -> StatusView {
    if aborted(v) {
        v
    } else {
        let c = charged(v);
        match r {
            SpellResult::Failed => c,
            SpellResult::Correct => add_found(c, cand, 1),
            SpellResult::CapitalizeFirst => add_found(c, upper_first(cand), 2),
            SpellResult::CapitalizationError => add_found(c, cand, 3),
        }
    }
}

/// The search state after offering `cands` in order, the speller answering
/// `rs[k]` for `cands[k]`.
pub open spec fn offer_all(v: StatusView, cands: Seq<Seq<char>>, rs: Seq<SpellResult>) -> StatusView
    decreases cands.len(),
{
    if cands.len() == 0 {
        v
    } else {
        offer(offer_all(v, cands.drop_last(), rs.drop_last()), cands.last(), rs.last())
    }
}

/// The answers `rs` for the candidates `cands`, offered in order from `v`,
/// are answers that `speller` may give: each candidate that it is asked
/// about (the search was not over when it came) has such an answer.
pub open spec fn answered_all<S: Speller>(
    speller: &S,
    v: StatusView,
    cands: Seq<Seq<char>>,
    rs: Seq<SpellResult>,
) -> bool {
    forall|k: int|
        0 <= k < cands.len() && !aborted(offer_all(v, cands.take(k), rs.take(k))) ==> #[trigger] speller_answer(
            speller,
            cands[k],
            rs[k],
        )
}

/// Whether `after` is the search state reached from `before` by offering
/// `cands` in order, `speller` answering for each candidate that it is
/// asked about an answer that it may give.
pub open spec fn offers<S: Speller>(
    speller: &S,
    before: StatusView,
    cands: Seq<Seq<char>>,
    after: StatusView,
) -> bool {
    exists|rs: Seq<SpellResult>|
        rs.len() == cands.len() && after == offer_all(before, cands, rs) && answered_all(
            speller,
            before,
            cands,
            rs,
        )
}

proof fn lemma_extends_refl(v: StatusView)
    ensures
        extends(v, v),
{
    assert(v.found.take(v.found.len() as int) =~= v.found);
}

proof fn lemma_extends_trans(a: StatusView, b: StatusView, c: StatusView)
    requires
        extends(a, b),
        extends(b, c),
    ensures
        extends(a, c),
{
    assert(c.found.take(a.found.len() as int) =~= c.found.take(b.found.len() as int).take(
        a.found.len() as int,
    ));
}

proof fn lemma_offer_extends(v: StatusView, cand: Seq<char>, r: SpellResult)
    ensures
        extends(v, offer(v, cand, r)),
{
    lemma_extends_refl(v);
    let w = offer(v, cand, r);
    if w.found.len() > v.found.len() {
        assert(w.found.take(v.found.len() as int) =~= v.found);
    }
}

proof fn lemma_offer_all_extends(v: StatusView, cands: Seq<Seq<char>>, rs: Seq<SpellResult>)
    ensures
        extends(v, offer_all(v, cands, rs)),
    decreases cands.len(),
{
    if cands.len() == 0 {
        lemma_extends_refl(v);
    } else {
        let mid = offer_all(v, cands.drop_last(), rs.drop_last());
        lemma_offer_all_extends(v, cands.drop_last(), rs.drop_last());
        lemma_offer_extends(mid, cands.last(), rs.last());
        lemma_extends_trans(v, mid, offer_all(v, cands, rs));
    }
}

/// Whatever the speller answers, offering candidates keeps the word and
/// the limits, charges no less work, and keeps the suggestions found
/// before in front of the new ones.
pub proof fn lemma_offers_extends<S: Speller>(
    speller: &S,
    before: StatusView,
    cands: Seq<Seq<char>>,
    after: StatusView,
)
    requires
        offers(speller, before, cands, after),
    ensures
        extends(before, after),
{
    let rs = choose|rs: Seq<SpellResult>|
        rs.len() == cands.len() && after == offer_all(before, cands, rs);
    lemma_offer_all_extends(before, cands, rs);
}

/// Once the search is over, offering more candidates changes nothing.
pub proof fn lemma_offer_all_aborted(v: StatusView, cands: Seq<Seq<char>>, rs: Seq<SpellResult>)
    requires
        aborted(v),
    ensures
        offer_all(v, cands, rs) == v,
    decreases cands.len(),
{
    if cands.len() > 0 {
        lemma_offer_all_aborted(v, cands.drop_last(), rs.drop_last());
    }
}

proof fn lemma_offer_all_push(
    v: StatusView,
    cands: Seq<Seq<char>>,
    rs: Seq<SpellResult>,
    cand: Seq<char>,
    r: SpellResult,
)
    ensures
        offer_all(v, cands.push(cand), rs.push(r)) == offer(offer_all(v, cands, rs), cand, r),
{
    assert(cands.push(cand).drop_last() =~= cands);
    assert(rs.push(r).drop_last() =~= rs);
}

/// Offering `a` and then `b` is offering `a + b`.
proof fn lemma_offer_all_concat(
    v: StatusView,
    a: Seq<Seq<char>>,
    ra: Seq<SpellResult>,
    b: Seq<Seq<char>>,
    rb: Seq<SpellResult>,
)
    requires
        ra.len() == a.len(),
        rb.len() == b.len(),
    ensures
        offer_all(v, a + b, ra + rb) == offer_all(offer_all(v, a, ra), b, rb),
    decreases b.len(),
{
    if b.len() == 0 {
        assert(a + b =~= a);
        assert(ra + rb =~= ra);
    } else {
        lemma_offer_all_concat(v, a, ra, b.drop_last(), rb.drop_last());
        assert((a + b).drop_last() =~= a + b.drop_last());
        assert((ra + rb).drop_last() =~= ra + rb.drop_last());
        assert((a + b).last() == b.last());
        assert((ra + rb).last() == rb.last());
    }
}

/// Answers that the speller may give extend by one more such answer.
proof fn lemma_answered_push<S: Speller>(
    speller: &S,
    v: StatusView,
    cands: Seq<Seq<char>>,
    rs: Seq<SpellResult>,
    cand: Seq<char>,
    r: SpellResult,
)
    requires
        rs.len() == cands.len(),
        answered_all(speller, v, cands, rs),
        !aborted(offer_all(v, cands, rs)) ==> speller_answer(speller, cand, r),
    ensures
        answered_all(speller, v, cands.push(cand), rs.push(r)),
{
    let c2 = cands.push(cand);
    let r2 = rs.push(r);
    assert forall|k: int|
        0 <= k < c2.len() && !aborted(offer_all(v, c2.take(k), r2.take(k))) implies #[trigger] speller_answer(
        speller,
        c2[k],
        r2[k],
    ) by {
        if k < cands.len() {
            assert(c2.take(k) =~= cands.take(k));
            assert(r2.take(k) =~= rs.take(k));
            assert(c2[k] == cands[k]);
            assert(r2[k] == rs[k]);
        } else {
            assert(c2.take(k) =~= cands);
            assert(r2.take(k) =~= rs);
        }
    }
}

/// The answers offered so far extend by the answer to one more candidate.
proof fn lemma_offers_step<S: Speller>(
    speller: &S,
    v: StatusView,
    done: Seq<Seq<char>>,
    rs: Seq<SpellResult>,
    cand: Seq<char>,
    after: StatusView,
) -> (rs2: Seq<SpellResult>)
    requires
        rs.len() == done.len(),
        answered_all(speller, v, done, rs),
        exists|r: SpellResult|
            #[trigger] offer(offer_all(v, done, rs), cand, r) == after && (!aborted(offer_all(v, done, rs))
                ==> speller_answer(speller, cand, r)),
    ensures
        rs2.len() == done.len() + 1,
        after == offer_all(v, done.push(cand), rs2),
        answered_all(speller, v, done.push(cand), rs2),
{
    let r = choose|r: SpellResult|
        #[trigger] offer(offer_all(v, done, rs), cand, r) == after && (!aborted(offer_all(v, done, rs))
            ==> speller_answer(speller, cand, r));
    lemma_offer_all_push(v, done, rs, cand, r);
    lemma_answered_push(speller, v, done, rs, cand, r);
    rs.push(r)
}

/// A search that offered `done` and then either had nothing left to offer
/// (`rest` is empty) or was over is the search that offered `done + rest`.
proof fn lemma_offers_finish<S: Speller>(
    speller: &S,
    v: StatusView,
    done: Seq<Seq<char>>,
    rs: Seq<SpellResult>,
    rest: Seq<Seq<char>>,
    all: Seq<Seq<char>>,
)
    requires
        rs.len() == done.len(),
        answered_all(speller, v, done, rs),
        done + rest == all,
        rest.len() > 0 ==> aborted(offer_all(v, done, rs)),
    ensures
        offers(speller, v, all, offer_all(v, done, rs)),
{
    let rb = Seq::new(rest.len(), |i: int| SpellResult::Failed);
    let ra = rs + rb;
    lemma_offer_all_concat(v, done, rs, rest, rb);
    if rest.len() > 0 {
        lemma_offer_all_aborted(offer_all(v, done, rs), rest, rb);
    } else {
        assert(rest =~= Seq::<Seq<char>>::empty());
        assert(rb =~= Seq::<SpellResult>::empty());
        assert(offer_all(offer_all(v, done, rs), rest, rb) == offer_all(v, done, rs));
    }
    assert(ra.len() == all.len());
    assert forall|k: int|
        0 <= k < all.len() && !aborted(offer_all(v, all.take(k), ra.take(k))) implies #[trigger] speller_answer(
        speller,
        all[k],
        ra[k],
    ) by {
        if k < done.len() {
            assert(all.take(k) =~= done.take(k));
            assert(ra.take(k) =~= rs.take(k));
            assert(all[k] == done[k]);
            assert(ra[k] == rs[k]);
        } else {
            let j = k - done.len();
            assert(all.take(k) =~= done + rest.take(j));
            assert(ra.take(k) =~= rs + rb.take(j));
            lemma_offer_all_concat(v, done, rs, rest.take(j), rb.take(j));
            lemma_offer_all_aborted(offer_all(v, done, rs), rest.take(j), rb.take(j));
        }
    }
}

/// No word is found twice.
pub open spec fn distinct_found(v: StatusView) -> bool {
    forall|i: int, j: int|
        0 <= i < j < v.found.len() ==> #[trigger] v.found[i].0 != #[trigger] v.found[j].0
}

/// Offering candidates keeps the suggestions distinct and within the
/// maximum number: each word is kept once, and none beyond the limit.
proof fn lemma_offer_all_keeps_distinct(v: StatusView, cands: Seq<Seq<char>>, rs: Seq<SpellResult>)
    requires
        distinct_found(v),
        v.found.len() <= v.max_suggestions,
    ensures
        distinct_found(offer_all(v, cands, rs)),
        offer_all(v, cands, rs).found.len() <= v.max_suggestions,
    decreases cands.len(),
{
    if cands.len() > 0 {
        lemma_offer_all_keeps_distinct(v, cands.drop_last(), rs.drop_last());
        let mid = offer_all(v, cands.drop_last(), rs.drop_last());
        lemma_offer_all_extends(v, cands.drop_last(), rs.drop_last());
        let after = offer_all(v, cands, rs);
        if after.found.len() > mid.found.len() {
            let w = after.found.last().0;
            assert(after.found == mid.found.push(after.found.last()));
            assert forall|i: int, j: int| 0 <= i < j < after.found.len() implies #[trigger]
                after.found[i].0 != #[trigger] after.found[j].0 by {
                if j == after.found.len() - 1 {
                    assert(after.found[i] == mid.found[i]);
                    assert(!(exists|k: int| 0 <= k < mid.found.len() && #[trigger] mid.found[k].0 == w));
                } else {
                    assert(after.found[i] == mid.found[i]);
                    assert(after.found[j] == mid.found[j]);
                }
            }
        }
    }
}

/// Whatever the speller answers, a generator that offers candidates keeps
/// the suggestions distinct and within the maximum number.
pub proof fn lemma_offers_keeps_distinct<S: Speller>(
    speller: &S,
    before: StatusView,
    cands: Seq<Seq<char>>,
    after: StatusView,
)
    requires
        offers(speller, before, cands, after),
        distinct_found(before),
        before.found.len() <= before.max_suggestions,
    ensures
        distinct_found(after),
        after.found.len() <= after.max_suggestions,
{
    let rs = choose|rs: Seq<SpellResult>| rs.len() == cands.len() && after == offer_all(before, cands, rs);
    lemma_offer_all_keeps_distinct(before, cands, rs);
    lemma_offer_all_extends(before, cands, rs);
}

/// Offering nothing leaves the search as it was.
proof fn lemma_offers_none<S: Speller>(speller: &S, v: StatusView)
    ensures
        offers(speller, v, Seq::empty(), v),
{
    let rs = Seq::<SpellResult>::empty();
    assert(offer_all(v, Seq::<Seq<char>>::empty(), rs) == v);
    assert(rs.len() == Seq::<Seq<char>>::empty().len());
    assert(answered_all(speller, v, Seq::<Seq<char>>::empty(), rs));
}

/// Offering a single candidate.
proof fn lemma_offers_first<S: Speller>(speller: &S, v: StatusView, cand: Seq<char>, after: StatusView)
    requires
        exists|r: SpellResult|
            #[trigger] offer(v, cand, r) == after && (!aborted(v) ==> speller_answer(speller, cand, r)),
    ensures
        offers(speller, v, seq![cand], after),
{
    let r = choose|r: SpellResult|
        #[trigger] offer(v, cand, r) == after && (!aborted(v) ==> speller_answer(speller, cand, r));
    lemma_offer_all_push(v, Seq::empty(), Seq::empty(), cand, r);
    lemma_offers_none(speller, v);
    lemma_answered_push(speller, v, Seq::empty(), Seq::empty(), cand, r);
    assert(offer_all(v, Seq::empty(), Seq::empty()) == v);
    assert(Seq::<Seq<char>>::empty().push(cand) =~= seq![cand]);
    assert(Seq::<SpellResult>::empty().push(r) =~= seq![r]);
    assert(seq![r].len() == seq![cand].len());
}

// ---------------------------------------------------------------------------
// The shared step
// ---------------------------------------------------------------------------

/// The priority a speller answer gives a suggestion (lower is better).
pub fn priority_from_result(result: SpellResult) -> (r: i32)
    ensures
        r == priority_of(result),
{
    match result {
        SpellResult::Correct => 1,
        SpellResult::CapitalizeFirst => 2,
        SpellResult::CapitalizationError => 3,
        SpellResult::Failed => i32::MAX,
    }
}

/// Offers the first `buf_len` characters of `buffer` as a candidate: unless
/// the search is over, the speller checks it, one call is charged, and an
/// accepted candidate is added to the suggestions. The answer is one that
/// the speller may give for the candidate.
pub fn suggest_for_buffer<S: Speller>(
    speller: &S,
    status: &mut SuggestionStatus<'_>,
    buffer: &[char],
    buf_len: usize,
)
    requires
        buf_len <= buffer@.len(),
    ensures
        exists|r: SpellResult|
            #[trigger] offer(old(status)@, buffer@.take(buf_len as int), r) == final(status)@ && (!aborted(
                old(status)@,
            ) ==> speller_answer(speller, buffer@.take(buf_len as int), r)),
{
    if status.should_abort() {
        assert(final(status)@ == offer(old(status)@, buffer@.take(buf_len as int), SpellResult::Failed));
        return;
    }
    let result = ask_speller(speller, buffer, buf_len);
    status.charge();
    match result {
        SpellResult::Failed => {},
        SpellResult::Correct => {
            let s = prefix_to_string(buffer, buf_len);
            status.add_suggestion(s, priority_from_result(result));
        },
        SpellResult::CapitalizeFirst => {
            let mut corrected: Vec<char> = Vec::new();
            let mut i: usize = 0;
            while i < buf_len
                invariant
                    buf_len <= buffer@.len(),
                    i <= buf_len,
                    corrected@ == upper_first(buffer@.take(buf_len as int)).take(i as int),
                decreases buf_len - i,
            {
                if i == 0 {
                    corrected.push(simple_upper(buffer[0]));
                } else {
                    corrected.push(buffer[i]);
                }
                i += 1;
                proof {
                    assert(corrected@ =~= upper_first(buffer@.take(buf_len as int)).take(i as int));
                }
            }
            proof {
                assert(corrected@ =~= upper_first(buffer@.take(buf_len as int)));
            }
            let s = prefix_to_string(corrected.as_slice(), corrected.len());
            proof {
                assert(corrected@.take(corrected@.len() as int) =~= corrected@);
            }
            status.add_suggestion(s, priority_from_result(result));
        },
        SpellResult::CapitalizationError => {
            let s = prefix_to_string(buffer, buf_len);
            status.add_suggestion(s, priority_from_result(result));
        },
    }
    assert(final(status)@ == offer(old(status)@, buffer@.take(buf_len as int), result));
}

/// A suggestion generator: one kind of edit applied to the word of a search.
pub trait SuggestionGenerator {
    /// Offers this generator's candidates for the word of `status`.
    fn generate<S: Speller>(&self, speller: &S, status: &mut SuggestionStatus<'_>)
        ensures
            extends(old(status)@, final(status)@),
    ;
}

// ---------------------------------------------------------------------------
// CaseChange
// ---------------------------------------------------------------------------

/// The candidates of `CaseChange`: the word itself, which the speller may
/// accept with other capitalization.
pub open spec fn case_change_cands(w: Seq<char>) -> Seq<Seq<char>> {
    seq![w]
}

/// Offers the word as it is, to find capitalization corrections.
pub struct CaseChange;

impl SuggestionGenerator for CaseChange {
    fn generate<S: Speller>(&self, speller: &S, status: &mut SuggestionStatus<'_>)
        ensures
            offers(speller, old(status)@, case_change_cands(old(status)@.word), final(status)@),
    {
        let ghost v = status@;
        let word = status.word();
        let len = status.word_len();
        suggest_for_buffer(speller, status, word, len);
        proof {
            assert(word@.take(len as int) =~= word@);
            lemma_offers_first(speller, v, word@, status@);
            lemma_offers_extends(speller, v, case_change_cands(v.word), status@);
        }
    }
}

// ---------------------------------------------------------------------------
// SoftHyphens
// ---------------------------------------------------------------------------

/// Whether `w` holds a soft hyphen.
pub open spec fn has_soft_hyphen(w: Seq<char>) -> bool {
    exists|i: int| 0 <= i < w.len() && w[i] == SOFT_HYPHEN
}

/// The candidates of `SoftHyphens`: the word without its soft hyphens,
/// where it has any.
pub open spec fn soft_hyphens_cands(w: Seq<char>) -> Seq<Seq<char>> {
    if has_soft_hyphen(w) {
        seq![without_soft_hyphens(w)]
    } else {
        seq![]
    }
}

/// Offers the word without soft hyphens.
pub struct SoftHyphens;

impl SuggestionGenerator for SoftHyphens {
    fn generate<S: Speller>(&self, speller: &S, status: &mut SuggestionStatus<'_>)
        ensures
            offers(speller, old(status)@, soft_hyphens_cands(old(status)@.word), final(status)@),
    {
        let ghost v = status@;
        let word = status.word();
        let mut found = false;
        let mut i: usize = 0;
        while i < word.len()
            invariant
                i <= word@.len(),
                found == (exists|k: int| 0 <= k < i && word@[k] == SOFT_HYPHEN),
            decreases word.len() - i,
        {
            if word[i] == SOFT_HYPHEN {
                found = true;
            }
            i += 1;
        }
        let ghost cands = soft_hyphens_cands(v.word);
        if !found {
            proof {
                assert(cands =~= Seq::<Seq<char>>::empty());
                lemma_offers_none(speller, v);
                lemma_offers_extends(speller, v, cands, status@);
            }
            return;
        }
        let buffer = strip_soft_hyphens(word);
        let len = buffer.len();
        suggest_for_buffer(speller, status, buffer.as_slice(), len);
        proof {
            assert(buffer@.take(len as int) =~= buffer@);
            lemma_offers_first(speller, v, buffer@, status@);
            lemma_offers_extends(speller, v, cands, status@);
        }
    }
}

// ---------------------------------------------------------------------------
// Building candidates
// ---------------------------------------------------------------------------

/// `w` without its character at `i`.
fn removed_at(w: &[char], i: usize) -> (r: Vec<char>)
    requires
        i < w@.len(),
    ensures
        r@ == w@.remove(i as int),
{
    let mut r: Vec<char> = Vec::new();
    let mut k: usize = 0;
    while k < w.len()
        invariant
            i < w@.len(),
            k <= w@.len(),
            r@ == (if k <= i { w@.take(k as int) } else { w@.take(k as int).remove(i as int) }),
        decreases w.len() - k,
    {
        if k != i {
            r.push(w[k]);
        }
        k += 1;
        proof {
            assert(r@ =~= (if k <= i { w@.take(k as int) } else { w@.take(k as int).remove(i as int) }));
        }
    }
    proof {
        assert(w@.take(w@.len() as int) =~= w@);
    }
    r
}

/// `w` with `c` inserted before position `j`.
fn inserted_at(w: &[char], j: usize, c: char) -> (r: Vec<char>)
    requires
        j <= w@.len(),
    ensures
        r@ == w@.insert(j as int, c),
{
    let mut r: Vec<char> = Vec::new();
    let mut k: usize = 0;
    while k < j
        invariant
            j <= w@.len(),
            k <= j,
            r@ == w@.take(k as int),
        decreases j - k,
    {
        r.push(w[k]);
        k += 1;
        proof {
            assert(r@ =~= w@.take(k as int));
        }
    }
    r.push(c);
    while k < w.len()
        invariant
            j <= k <= w@.len(),
            r@ == w@.take(j as int).push(c) + w@.subrange(j as int, k as int),
        decreases w.len() - k,
    {
        r.push(w[k]);
        k += 1;
        proof {
            assert(r@ =~= w@.take(j as int).push(c) + w@.subrange(j as int, k as int));
        }
    }
    proof {
        assert(r@ =~= w@.insert(j as int, c));
    }
    r
}

/// A copy of `w`.
pub(crate) fn copied(w: &[char]) -> (r: Vec<char>)
    ensures
        r@ == w@,
{
    let mut r: Vec<char> = Vec::new();
    let mut k: usize = 0;
    while k < w.len()
        invariant
            k <= w@.len(),
            r@ == w@.take(k as int),
        decreases w.len() - k,
    {
        r.push(w[k]);
        k += 1;
        proof {
            assert(r@ =~= w@.take(k as int));
        }
    }
    proof {
        assert(w@.take(w@.len() as int) =~= w@);
    }
    r
}

/// Offers a whole candidate and records it among those offered.
fn offer_candidate<S: Speller>(
    speller: &S,
    status: &mut SuggestionStatus<'_>,
    cand: &Vec<char>,
    Ghost(v): Ghost<StatusView>,
    Ghost(done): Ghost<Seq<Seq<char>>>,
    Ghost(rs): Ghost<Seq<SpellResult>>,
) -> (rs2: Ghost<Seq<SpellResult>>)
    requires
        rs.len() == done.len(),
        old(status)@ == offer_all(v, done, rs),
        answered_all(speller, v, done, rs),
        answered_all(speller, v, done, rs),
    ensures
        rs2@.len() == done.len() + 1,
        final(status)@ == offer_all(v, done.push(cand@), rs2@),
        answered_all(speller, v, done.push(cand@), rs2@),
{
    let len = cand.len();
    suggest_for_buffer(speller, status, cand.as_slice(), len);
    proof {
        assert(cand@.take(len as int) =~= cand@);
    }
    Ghost(lemma_offers_step(speller, v, done, rs, cand@, status@))
}

// ---------------------------------------------------------------------------
// Deletion
// ---------------------------------------------------------------------------

/// Whether `Deletion` passes over position `i`: its letter is the one
/// before it (ignoring case), so deleting it gives the same word as
/// deleting that one.
pub open spec fn deletion_skips(w: Seq<char>, i: int) -> bool {
    i > 0 && lowercase_of(w[i]) == lowercase_of(w[i - 1])
}

/// The deletion candidates from position `i` on.
pub open spec fn deletion_from(w: Seq<char>, i: int) -> Seq<Seq<char>>
    decreases w.len() - i,
{
    if i >= w.len() {
        seq![]
    } else if deletion_skips(w, i) {
        deletion_from(w, i + 1)
    } else {
        seq![w.remove(i)] + deletion_from(w, i + 1)
    }
}

/// The candidates of `Deletion`: the word without one of its characters,
/// left to right, for words of two characters or more.
pub open spec fn deletion_cands(w: Seq<char>) -> Seq<Seq<char>> {
    if w.len() < 2 {
        seq![]
    } else {
        deletion_from(w, 0)
    }
}

/// Deletes one character.
pub struct Deletion;

impl SuggestionGenerator for Deletion {
    fn generate<S: Speller>(&self, speller: &S, status: &mut SuggestionStatus<'_>)
        ensures
            offers(speller, old(status)@, deletion_cands(old(status)@.word), final(status)@),
    {
        let ghost v = status@;
        let word = status.word();
        let wlen = status.word_len();
        let ghost all = deletion_cands(v.word);
        if wlen < 2 {
            proof {
                lemma_offers_none(speller, v);
                lemma_offers_extends(speller, v, all, status@);
            }
            return;
        }
        let ghost mut done: Seq<Seq<char>> = Seq::empty();
        let ghost mut rs: Seq<SpellResult> = Seq::empty();
        proof {
            assert(done + deletion_from(word@, 0) =~= all);
        }
        let mut i: usize = 0;
        while i < wlen
            invariant
                word@ == v.word,
                wlen == word@.len(),
                i <= wlen,
                rs.len() == done.len(),
                status@ == offer_all(v, done, rs),
                answered_all(speller, v, done, rs),
                done + deletion_from(word@, i as int) == all,
            ensures
                rs.len() == done.len(),
                status@ == offer_all(v, done, rs),
                answered_all(speller, v, done, rs),
                done + deletion_from(word@, i as int) == all,
                i >= wlen || aborted(status@),
            decreases wlen - i,
        {
            if status.should_abort() {
                break;
            }
            if i > 0 && simple_lower(word[i]) == simple_lower(word[i - 1]) {
                i += 1;
                continue;
            }
            let buffer = removed_at(word, i);
            let Ghost(rs2) = offer_candidate(speller, status, &buffer, Ghost(v), Ghost(done), Ghost(rs));
            proof {
                assert(done.push(buffer@) + deletion_from(word@, i + 1) =~= done + deletion_from(word@, i as int));
                done = done.push(buffer@);
                rs = rs2;
            }
            i += 1;
        }
        proof {
            lemma_offers_finish(speller, v, done, rs, deletion_from(word@, i as int), all);
            lemma_offers_extends(speller, v, all, status@);
        }
    }
}

// ---------------------------------------------------------------------------
// Insertion
// ---------------------------------------------------------------------------

/// Whether `Insertion` passes over inserting `ins` before position `j`:
/// the character there, or the one before it, is `ins` already (ignoring
/// case), which gives a word that another position gives too.
pub open spec fn insertion_skips(w: Seq<char>, ins: char, j: int) -> bool {
    ins == lowercase_of(w[j]) || (j > 0 && ins == lowercase_of(w[j - 1]))
}

/// The candidate that appends `ins`, unless the word ends with it.
pub open spec fn insertion_end(w: Seq<char>, ins: char) -> Seq<Seq<char>> {
    if ins == w.last() {
        seq![]
    } else {
        seq![w.push(ins)]
    }
}

/// The candidates inserting `ins` before positions `j` and on, then at
/// the end.
pub open spec fn insertion_inner(w: Seq<char>, ins: char, j: int) -> Seq<Seq<char>>
    decreases w.len() - j,
{
    if j >= w.len() {
        insertion_end(w, ins)
    } else if insertion_skips(w, ins, j) {
        insertion_inner(w, ins, j + 1)
    } else {
        seq![w.insert(j, ins)] + insertion_inner(w, ins, j + 1)
    }
}

/// The candidates for the characters `cs[m..]`.
pub open spec fn insertion_from(w: Seq<char>, cs: Seq<char>, m: int) -> Seq<Seq<char>>
    decreases cs.len() - m,
{
    if m >= cs.len() {
        seq![]
    } else {
        insertion_inner(w, cs[m], 0) + insertion_from(w, cs, m + 1)
    }
}

/// The candidates of `Insertion`: for each character of `cs` in turn, the
/// word with it inserted at each position, left to right.
pub open spec fn insertion_cands(w: Seq<char>, cs: Seq<char>) -> Seq<Seq<char>> {
    if w.len() == 0 {
        seq![]
    } else {
        insertion_from(w, cs, 0)
    }
}

proof fn lemma_insertion_inner_has(w: Seq<char>, c: char, j0: int, j: int)
    requires
        0 <= j0 <= j <= w.len(),
        w.len() > 0,
        j < w.len() ==> c != lowercase_of(w[j]),
        j > 0 ==> c != lowercase_of(w[j - 1]) && c != w[j - 1],
    ensures
        insertion_inner(w, c, j0).contains(w.insert(j, c)),
    decreases w.len() - j0,
{
    if j0 >= w.len() {
        assert(j == w.len());
        assert(w.insert(j, c) =~= w.push(c));
        assert(insertion_end(w, c)[0] == w.push(c));
    } else if j0 == j {
        assert(!insertion_skips(w, c, j));
        assert(insertion_inner(w, c, j0)[0] == w.insert(j, c));
    } else {
        lemma_insertion_inner_has(w, c, j0 + 1, j);
        let rest = insertion_inner(w, c, j0 + 1);
        let k = choose|k: int| 0 <= k < rest.len() && rest[k] == w.insert(j, c);
        if !insertion_skips(w, c, j0) {
            assert(insertion_inner(w, c, j0)[k + 1] == rest[k]);
        }
    }
}

proof fn lemma_insertion_from_has(w: Seq<char>, cs: Seq<char>, m0: int, m: int, j: int)
    requires
        0 <= m0 <= m < cs.len(),
        0 <= j <= w.len(),
        w.len() > 0,
        j < w.len() ==> cs[m] != lowercase_of(w[j]),
        j > 0 ==> cs[m] != lowercase_of(w[j - 1]) && cs[m] != w[j - 1],
    ensures
        insertion_from(w, cs, m0).contains(w.insert(j, cs[m])),
    decreases cs.len() - m0,
{
    let head = insertion_inner(w, cs[m0], 0);
    let rest = insertion_from(w, cs, m0 + 1);
    assert(insertion_from(w, cs, m0) == head + rest);
    if m0 == m {
        lemma_insertion_inner_has(w, cs[m], 0, j);
        let k = choose|k: int| 0 <= k < head.len() && head[k] == w.insert(j, cs[m]);
        assert((head + rest)[k] == head[k]);
    } else {
        lemma_insertion_from_has(w, cs, m0 + 1, m, j);
        let k = choose|k: int| 0 <= k < rest.len() && rest[k] == w.insert(j, cs[m]);
        assert((head + rest)[head.len() + k] == rest[k]);
    }
}

/// `Insertion` with the characters `cs` offers the word with any of them
/// inserted at any position, unless the same character (ignoring case)
/// stands right there or right before, where the same word comes from the
/// neighbouring position.
pub proof fn lemma_insertion_offers(w: Seq<char>, cs: Seq<char>, c: char, j: int)
    requires
        cs.contains(c),
        0 <= j <= w.len(),
        w.len() > 0,
        j < w.len() ==> c != lowercase_of(w[j]),
        j > 0 ==> c != lowercase_of(w[j - 1]) && c != w[j - 1],
    ensures
        insertion_cands(w, cs).contains(w.insert(j, c)),
{
    let m = choose|m: int| 0 <= m < cs.len() && cs[m] == c;
    lemma_insertion_from_has(w, cs, 0, m, j);
}

/// Inserts one character from a list, ordered by frequency.
pub struct Insertion {
    /// Characters to try inserting, ordered by frequency.
    pub characters: Vec<char>,
}

impl SuggestionGenerator for Insertion {
    fn generate<S: Speller>(&self, speller: &S, status: &mut SuggestionStatus<'_>)
        ensures
            offers(
                speller,
                old(status)@,
                insertion_cands(old(status)@.word, self.characters@),
                final(status)@,
            ),
    {
        let ghost v = status@;
        let word = status.word();
        let wlen = status.word_len();
        let ghost cs = self.characters@;
        let ghost all = insertion_cands(v.word, cs);
        if wlen == 0 {
            proof {
                lemma_offers_none(speller, v);
                lemma_offers_extends(speller, v, all, status@);
            }
            return;
        }
        let ghost mut done: Seq<Seq<char>> = Seq::empty();
        let ghost mut rs: Seq<SpellResult> = Seq::empty();
        let ghost mut rest = insertion_from(word@, cs, 0);
        proof {
            assert(done + rest =~= all);
        }
        let mut m: usize = 0;
        while m < self.characters.len()
            invariant_except_break
                rest == insertion_from(word@, cs, m as int),
            invariant
                word@ == v.word,
                wlen == word@.len(),
                wlen > 0,
                cs == self.characters@,
                m <= cs.len(),
                rs.len() == done.len(),
                status@ == offer_all(v, done, rs),
                answered_all(speller, v, done, rs),
                done + rest == all,
            ensures
                rs.len() == done.len(),
                status@ == offer_all(v, done, rs),
                answered_all(speller, v, done, rs),
                done + rest == all,
                (m >= cs.len() && rest == insertion_from(word@, cs, m as int)) || aborted(status@),
            decreases cs.len() - m,
        {
            let ins = self.characters[m];
            proof {
                assert(done + insertion_inner(word@, ins, 0) + insertion_from(word@, cs, m + 1)
                    =~= all);
            }
            let mut j: usize = 0;
            while j < wlen
                invariant
                    word@ == v.word,
                    wlen == word@.len(),
                    wlen > 0,
                    cs == self.characters@,
                    m < cs.len(),
                    ins == cs[m as int],
                    j <= wlen,
                    rs.len() == done.len(),
                    status@ == offer_all(v, done, rs),
                    answered_all(speller, v, done, rs),
                    done + insertion_inner(word@, ins, j as int) + insertion_from(word@, cs, m + 1)
                        == all,
                ensures
                    rs.len() == done.len(),
                    status@ == offer_all(v, done, rs),
                    answered_all(speller, v, done, rs),
                    done + insertion_inner(word@, ins, j as int) + insertion_from(word@, cs, m + 1)
                        == all,
                    j >= wlen || aborted(status@),
                decreases wlen - j,
            {
                if status.should_abort() {
                    break;
                }
                if ins == simple_lower(word[j]) {
                    j += 1;
                    continue;
                }
                if j > 0 && ins == simple_lower(word[j - 1]) {
                    j += 1;
                    continue;
                }
                let buffer = inserted_at(word, j, ins);
                let Ghost(rs2) = offer_candidate(speller, status, &buffer, Ghost(v), Ghost(done), Ghost(rs));
                proof {
                    assert(done.push(buffer@) + insertion_inner(word@, ins, j + 1) =~= done
                        + insertion_inner(word@, ins, j as int));
                    done = done.push(buffer@);
                    rs = rs2;
                }
                j += 1;
            }
            if status.should_abort() {
                proof {
                    rest = insertion_inner(word@, ins, j as int) + insertion_from(word@, cs, m + 1);
                    assert(done + rest =~= all);
                }
                break;
            }
            proof {
                assert(insertion_inner(word@, ins, j as int) == insertion_end(word@, ins));
            }
            if ins == word[wlen - 1] {
                proof {
                    assert(done + insertion_from(word@, cs, m + 1) =~= all);
                    rest = insertion_from(word@, cs, m + 1);
                }
                m += 1;
                continue;
            }
            let buffer = inserted_at(word, wlen, ins);
            let Ghost(rs2) = offer_candidate(speller, status, &buffer, Ghost(v), Ghost(done), Ghost(rs));
            proof {
                assert(word@.insert(wlen as int, ins) =~= word@.push(ins));
                assert(done.push(buffer@) + insertion_from(word@, cs, m + 1) =~= all);
                done = done.push(buffer@);
                rs = rs2;
                rest = insertion_from(word@, cs, m + 1);
            }
            m += 1;
        }
        proof {
            lemma_offers_finish(speller, v, done, rs, rest, all);
            lemma_offers_extends(speller, v, all, status@);
        }
    }
}

// ---------------------------------------------------------------------------
// InsertSpecial
// ---------------------------------------------------------------------------

/// Whether `InsertSpecial` passes over inserting a hyphen before position
/// `j`: there is a hyphen near it already.
pub open spec fn hyphen_skips(w: Seq<char>, j: int) -> bool {
    w[j - 2] == '-' || w[j - 1] == '-' || w[j] == '-' || (j + 1 < w.len() && w[j + 1] == '-')
}

/// The hyphen candidates before positions `j` and on, up to two
/// characters from the end.
pub open spec fn hyphen_from(w: Seq<char>, j: int) -> Seq<Seq<char>>
    decreases w.len() - j,
{
    if j > w.len() - 2 {
        seq![]
    } else if hyphen_skips(w, j) {
        hyphen_from(w, j + 1)
    } else {
        seq![w.insert(j, '-')] + hyphen_from(w, j + 1)
    }
}

/// The candidates doubling a character at positions `j` and on: a letter
/// that is doubled already is passed over with its twin, and hyphens and
/// apostrophes are not doubled.
pub open spec fn doubling_from(w: Seq<char>, j: int) -> Seq<Seq<char>>
    decreases w.len() - j,
{
    if j >= w.len() {
        seq![]
    } else if j + 1 < w.len() && w[j] == w[j + 1] {
        doubling_from(w, j + 2)
    } else if w[j] == '-' || w[j] == '\'' {
        doubling_from(w, j + 1)
    } else {
        seq![w.insert(j, w[j])] + doubling_from(w, j + 1)
    }
}

/// The candidates of `InsertSpecial`, for words of four characters or
/// more: a hyphen inserted at each position at least two characters from
/// either end, then each character doubled.
pub open spec fn insert_special_cands(w: Seq<char>) -> Seq<Seq<char>> {
    if w.len() < 4 {
        seq![]
    } else {
        hyphen_from(w, 2) + doubling_from(w, 0)
    }
}

/// Inserts a hyphen, or doubles a character.
pub struct InsertSpecial;

impl SuggestionGenerator for InsertSpecial {
    fn generate<S: Speller>(&self, speller: &S, status: &mut SuggestionStatus<'_>)
        ensures
            offers(speller, old(status)@, insert_special_cands(old(status)@.word), final(status)@),
    {
        let ghost v = status@;
        let word = status.word();
        let wlen = status.word_len();
        let ghost all = insert_special_cands(v.word);
        if wlen < 4 {
            proof {
                lemma_offers_none(speller, v);
                lemma_offers_extends(speller, v, all, status@);
            }
            return;
        }
        let ghost mut done: Seq<Seq<char>> = Seq::empty();
        let ghost mut rs: Seq<SpellResult> = Seq::empty();
        proof {
            assert(done + hyphen_from(word@, 2) + doubling_from(word@, 0) =~= all);
        }
        let mut j: usize = 2;
        while j <= wlen - 2
            invariant
                word@ == v.word,
                wlen == word@.len(),
                wlen >= 4,
                2 <= j <= wlen - 1,
                rs.len() == done.len(),
                status@ == offer_all(v, done, rs),
                answered_all(speller, v, done, rs),
                done + hyphen_from(word@, j as int) + doubling_from(word@, 0) == all,
            ensures
                rs.len() == done.len(),
                status@ == offer_all(v, done, rs),
                answered_all(speller, v, done, rs),
                done + hyphen_from(word@, j as int) + doubling_from(word@, 0) == all,
                j > wlen - 2 || aborted(status@),
            decreases wlen - j,
        {
            if status.should_abort() {
                break;
            }
            if word[j - 2] == '-' || word[j - 1] == '-' || word[j] == '-' || (j + 1 < wlen
                && word[j + 1] == '-') {
                j += 1;
                continue;
            }
            let buffer = inserted_at(word, j, '-');
            let Ghost(rs2) = offer_candidate(speller, status, &buffer, Ghost(v), Ghost(done), Ghost(rs));
            proof {
                assert(done.push(buffer@) + hyphen_from(word@, j + 1) =~= done + hyphen_from(
                    word@,
                    j as int,
                ));
                done = done.push(buffer@);
                rs = rs2;
            }
            j += 1;
        }
        if status.should_abort() {
            proof {
                assert(done + hyphen_from(word@, j as int) + doubling_from(word@, 0) =~= done + (
                hyphen_from(word@, j as int) + doubling_from(word@, 0)));
                lemma_offers_finish(speller, v, done, rs, hyphen_from(word@, j as int) + doubling_from(word@, 0), all);
                lemma_offers_extends(speller, v, all, status@);
            }
            return;
        }
        proof {
            assert(hyphen_from(word@, j as int) =~= Seq::<Seq<char>>::empty());
        }
        let ghost mut rest = doubling_from(word@, 0);
        proof {
            assert(done + rest =~= all);
        }
        let mut j: usize = 0;
        while j < wlen
            invariant_except_break
                rest == doubling_from(word@, j as int),
            invariant
                word@ == v.word,
                wlen == word@.len(),
                wlen >= 4,
                j <= wlen,
                rs.len() == done.len(),
                status@ == offer_all(v, done, rs),
                answered_all(speller, v, done, rs),
                done + rest == all,
            ensures
                rs.len() == done.len(),
                status@ == offer_all(v, done, rs),
                answered_all(speller, v, done, rs),
                done + rest == all,
                rest.len() > 0 ==> aborted(status@),
            decreases wlen - j,
        {
            if status.should_abort() {
                break;
            }
            if j + 1 < wlen && word[j] == word[j + 1] {
                j += 2;
                proof {
                    rest = doubling_from(word@, j as int);
                }
                continue;
            }
            if word[j] == '-' || word[j] == '\'' {
                j += 1;
                proof {
                    rest = doubling_from(word@, j as int);
                }
                continue;
            }
            let buffer = inserted_at(word, j, word[j]);
            let Ghost(rs2) = offer_candidate(speller, status, &buffer, Ghost(v), Ghost(done), Ghost(rs));
            proof {
                assert(done.push(buffer@) + doubling_from(word@, j + 1) =~= done + rest);
                done = done.push(buffer@);
                rs = rs2;
                rest = doubling_from(word@, j + 1);
            }
            j += 1;
        }
        proof {
            lemma_offers_finish(speller, v, done, rs, rest, all);
            lemma_offers_extends(speller, v, all, status@);
        }
    }
}

// ---------------------------------------------------------------------------
// Replacement
// ---------------------------------------------------------------------------

/// `w` with `c` in place of its character at `i`.
fn updated(w: &[char], i: usize, c: char) -> (r: Vec<char>)
    requires
        i < w@.len(),
    ensures
        r@ == w@.update(i as int, c),
{
    let mut r = copied(w);
    r.set(i, c);
    r
}

/// The candidates replacing `from` by `to` at positions `pos` and on, one
/// position at a time, left to right.
pub open spec fn replaced_from(w: Seq<char>, from: char, to: char, pos: int) -> Seq<Seq<char>>
    decreases w.len() - pos,
{
    if pos >= w.len() {
        seq![]
    } else if w[pos] != from {
        replaced_from(w, from, to, pos + 1)
    } else {
        seq![w.update(pos, to)] + replaced_from(w, from, to, pos + 1)
    }
}

/// The candidates of one replacement pair: `from` by `to`, then, where
/// `from` has a different uppercase form, the uppercase forms likewise.
pub open spec fn replacement_pair(w: Seq<char>, from: char, to: char) -> Seq<Seq<char>> {
    replaced_from(w, from, to, 0) + if uppercase_of(from) == from {
        seq![]
    } else {
        replaced_from(w, uppercase_of(from), uppercase_of(to), 0)
    }
}

/// The candidates of the replacement pairs `t[i], t[i + 1]` and on.
pub open spec fn replacement_from(w: Seq<char>, t: Seq<char>, i: int) -> Seq<Seq<char>>
    decreases t.len() - i,
{
    if i + 1 >= t.len() {
        seq![]
    } else {
        replacement_pair(w, t[i], t[i + 1]) + replacement_from(w, t, i + 2)
    }
}

/// The candidates of `Replacement` with the table `t` of pairs
/// `[from1, to1, from2, to2, ...]`: for each pair in turn, the word with
/// one occurrence of `from` replaced by `to`.
pub open spec fn replacement_cands(w: Seq<char>, t: Seq<char>) -> Seq<Seq<char>> {
    if t.len() < 2 {
        seq![]
    } else {
        replacement_from(w, t, 0)
    }
}

/// Offers the word with one occurrence of `from` replaced by `to`, at each
/// position in turn, until the search is over. Returns whether it stopped
/// because the search was over, the candidates offered and the speller's
/// answers so far, and the candidates it did not reach.
fn replace_scan<S: Speller>(
    speller: &S,
    status: &mut SuggestionStatus<'_>,
    word: &[char],
    from: char,
    to: char,
    Ghost(v): Ghost<StatusView>,
    Ghost(done): Ghost<Seq<Seq<char>>>,
    Ghost(rs): Ghost<Seq<SpellResult>>,
) -> (r: (bool, Ghost<Seq<Seq<char>>>, Ghost<Seq<SpellResult>>, Ghost<Seq<Seq<char>>>))
    requires
        rs.len() == done.len(),
        old(status)@ == offer_all(v, done, rs),
        answered_all(speller, v, done, rs),
    ensures
        r.2@.len() == r.1@.len(),
        final(status)@ == offer_all(v, r.1@, r.2@),
        answered_all(speller, v, r.1@, r.2@),
        r.1@ + r.3@ == done + replaced_from(word@, from, to, 0),
        r.0 ==> aborted(final(status)@),
        !r.0 ==> r.3@.len() == 0,
{
    let ghost mut dn = done;
    let ghost mut rn = rs;
    let mut pos: usize = 0;
    while pos < word.len()
        invariant
            pos <= word@.len(),
            rn.len() == dn.len(),
            status@ == offer_all(v, dn, rn),
            answered_all(speller, v, dn, rn),
            dn + replaced_from(word@, from, to, pos as int) == done + replaced_from(
                word@,
                from,
                to,
                0,
            ),
        decreases word.len() - pos,
    {
        if word[pos] != from {
            pos += 1;
            continue;
        }
        let buffer = updated(word, pos, to);
        let Ghost(rs2) = offer_candidate(speller, status, &buffer, Ghost(v), Ghost(dn), Ghost(rn));
        proof {
            assert(dn.push(buffer@) + replaced_from(word@, from, to, pos + 1) =~= dn
                + replaced_from(word@, from, to, pos as int));
            dn = dn.push(buffer@);
            rn = rs2;
        }
        pos += 1;
        if status.should_abort() {
            proof {
                assert(dn + replaced_from(word@, from, to, pos as int) == done + replaced_from(
                    word@,
                    from,
                    to,
                    0,
                ));
            }
            return (true, Ghost(dn), Ghost(rn), Ghost(replaced_from(word@, from, to, pos as int)));
        }
    }
    proof {
        assert(dn + replaced_from(word@, from, to, pos as int) =~= dn);
    }
    (false, Ghost(dn), Ghost(rn), Ghost(Seq::empty()))
}

/// Replaces characters by a table of pairs.
pub struct Replacement {
    /// Flat replacement pairs: `[from1, to1, from2, to2, ...]`.
    pub replacements: Vec<char>,
}

impl SuggestionGenerator for Replacement {
    fn generate<S: Speller>(&self, speller: &S, status: &mut SuggestionStatus<'_>)
        ensures
            offers(
                speller,
                old(status)@,
                replacement_cands(old(status)@.word, self.replacements@),
                final(status)@,
            ),
    {
        let ghost v = status@;
        let word = status.word();
        let ghost t = self.replacements@;
        let ghost all = replacement_cands(v.word, t);
        if self.replacements.len() < 2 {
            proof {
                lemma_offers_none(speller, v);
                lemma_offers_extends(speller, v, all, status@);
            }
            return;
        }
        let ghost mut done: Seq<Seq<char>> = Seq::empty();
        let ghost mut rs: Seq<SpellResult> = Seq::empty();
        let ghost mut rest = replacement_from(word@, t, 0);
        proof {
            assert(done + rest =~= all);
        }
        let mut i: usize = 0;
        while i < self.replacements.len() - 1
            invariant_except_break
                rest == replacement_from(word@, t, i as int),
            invariant
                word@ == v.word,
                t == self.replacements@,
                t.len() >= 2,
                i <= t.len(),
                rs.len() == done.len(),
                status@ == offer_all(v, done, rs),
                answered_all(speller, v, done, rs),
                done + rest == all,
            ensures
                rs.len() == done.len(),
                status@ == offer_all(v, done, rs),
                answered_all(speller, v, done, rs),
                done + rest == all,
                rest.len() > 0 ==> aborted(status@),
            decreases self.replacements.len() - i,
        {
            let from = self.replacements[i];
            let to = self.replacements[i + 1];
            let ghost upper_part = if uppercase_of(from) == from {
                Seq::<Seq<char>>::empty()
            } else {
                replaced_from(word@, uppercase_of(from), uppercase_of(to), 0)
            };
            proof {
                assert(done + replaced_from(word@, from, to, 0) + upper_part + replacement_from(
                    word@,
                    t,
                    i + 2,
                ) =~= all);
            }
            let (stopped, Ghost(d2), Ghost(r2), Ghost(left)) = replace_scan(
                speller,
                status,
                word,
                from,
                to,
                Ghost(v),
                Ghost(done),
                Ghost(rs),
            );
            proof {
                assert(d2 + (left + upper_part + replacement_from(word@, t, i + 2)) =~= all);
                done = d2;
                rs = r2;
                rest = left + upper_part + replacement_from(word@, t, i + 2);
            }
            if stopped {
                break;
            }
            proof {
                assert(left =~= Seq::<Seq<char>>::empty());
                assert(rest =~= upper_part + replacement_from(word@, t, i + 2));
            }
            let upper_from = simple_upper(from);
            if upper_from != from {
                let (stopped, Ghost(d3), Ghost(r3), Ghost(left)) = replace_scan(
                    speller,
                    status,
                    word,
                    upper_from,
                    simple_upper(to),
                    Ghost(v),
                    Ghost(done),
                    Ghost(rs),
                );
                proof {
                    assert(d3 + (left + replacement_from(word@, t, i + 2)) =~= all);
                    done = d3;
                    rs = r3;
                    rest = left + replacement_from(word@, t, i + 2);
                }
                if stopped {
                    break;
                }
                proof {
                    assert(left =~= Seq::<Seq<char>>::empty());
                    assert(rest =~= replacement_from(word@, t, i + 2));
                }
            } else {
                proof {
                    assert(rest =~= replacement_from(word@, t, i + 2));
                }
            }
            i += 2;
        }
        proof {
            lemma_offers_finish(speller, v, done, rs, rest, all);
            lemma_offers_extends(speller, v, all, status@);
        }
    }
}

// ---------------------------------------------------------------------------
// ReplaceTwo
// ---------------------------------------------------------------------------

/// `w` in lowercase, character by character.
pub open spec fn lowered(w: Seq<char>) -> Seq<char> {
    Seq::new(w.len(), |k: int| lowercase_of(w[k]))
}

/// The candidates replacing the doubled letter at `i` by the pairs
/// `t[j], t[j + 1]` and on whose first member is that letter.
pub open spec fn replace_two_pairs(lw: Seq<char>, t: Seq<char>, i: int, j: int) -> Seq<Seq<char>>
    decreases t.len() - j,
{
    if j + 1 >= t.len() {
        seq![]
    } else if t[j] != lw[i] {
        replace_two_pairs(lw, t, i, j + 2)
    } else {
        seq![lw.update(i, t[j + 1]).update(i + 1, t[j + 1])] + replace_two_pairs(lw, t, i, j + 2)
    }
}

/// The candidates for the doubled letters at positions `i` and on.
pub open spec fn replace_two_from(lw: Seq<char>, t: Seq<char>, i: int) -> Seq<Seq<char>>
    decreases lw.len() - i,
{
    if i + 1 >= lw.len() {
        seq![]
    } else if lw[i] != lw[i + 1] {
        replace_two_from(lw, t, i + 1)
    } else {
        replace_two_pairs(lw, t, i, 0) + replace_two_from(lw, t, i + 2)
    }
}

/// The candidates of `ReplaceTwo` with the table `t`: in the lowercased
/// word, each doubled letter replaced by the doubled replacement of each
/// pair that starts with it.
pub open spec fn replace_two_cands(w: Seq<char>, t: Seq<char>) -> Seq<Seq<char>> {
    if w.len() < 2 || t.len() < 2 {
        seq![]
    } else {
        replace_two_from(lowered(w), t, 0)
    }
}

/// Replaces doubled letters by a table of pairs.
pub struct ReplaceTwo {
    /// Flat replacement pairs: `[from1, to1, from2, to2, ...]`.
    pub replacements: Vec<char>,
}

impl SuggestionGenerator for ReplaceTwo {
    fn generate<S: Speller>(&self, speller: &S, status: &mut SuggestionStatus<'_>)
        ensures
            offers(
                speller,
                old(status)@,
                replace_two_cands(old(status)@.word, self.replacements@),
                final(status)@,
            ),
    {
        let ghost v = status@;
        let word = status.word();
        let wlen = status.word_len();
        let ghost t = self.replacements@;
        let ghost all = replace_two_cands(v.word, t);
        if wlen < 2 || self.replacements.len() < 2 {
            proof {
                lemma_offers_none(speller, v);
                lemma_offers_extends(speller, v, all, status@);
            }
            return;
        }
        let mut lower: Vec<char> = Vec::new();
        let mut k: usize = 0;
        while k < wlen
            invariant
                wlen == word@.len(),
                k <= wlen,
                lower@ == lowered(word@).take(k as int),
            decreases wlen - k,
        {
            lower.push(simple_lower(word[k]));
            k += 1;
            proof {
                assert(lower@ =~= lowered(word@).take(k as int));
            }
        }
        proof {
            assert(lower@ =~= lowered(word@));
        }
        let ghost lw = lower@;
        let ghost mut done: Seq<Seq<char>> = Seq::empty();
        let ghost mut rs: Seq<SpellResult> = Seq::empty();
        let ghost mut rest = replace_two_from(lw, t, 0);
        proof {
            assert(done + rest =~= all);
        }
        let mut i: usize = 0;
        while i < wlen - 1
            invariant_except_break
                rest == replace_two_from(lw, t, i as int),
            invariant
                word@ == v.word,
                wlen == word@.len(),
                wlen >= 2,
                lower@ == lw,
                lw.len() == wlen,
                t == self.replacements@,
                t.len() >= 2,
                rs.len() == done.len(),
                status@ == offer_all(v, done, rs),
                answered_all(speller, v, done, rs),
                done + rest == all,
            ensures
                rs.len() == done.len(),
                status@ == offer_all(v, done, rs),
                answered_all(speller, v, done, rs),
                done + rest == all,
                rest.len() > 0 ==> aborted(status@),
            decreases wlen - i,
        {
            let replaced = lower[i];
            if replaced != lower[i + 1] {
                i += 1;
                proof {
                    rest = replace_two_from(lw, t, i as int);
                }
                continue;
            }
            proof {
                rest = replace_two_pairs(lw, t, i as int, 0) + replace_two_from(lw, t, i + 2);
                assert(done + rest =~= all);
            }
            let mut stopped = false;
            let mut j: usize = 0;
            while j < self.replacements.len() - 1
                invariant_except_break
                    rest == replace_two_pairs(lw, t, i as int, j as int) + replace_two_from(
                        lw,
                        t,
                        i + 2,
                    ),
                    !stopped,
                invariant
                    word@ == v.word,
                    wlen == word@.len(),
                    i + 1 < wlen,
                    lower@ == lw,
                    lw.len() == wlen,
                    replaced == lw[i as int],
                    t == self.replacements@,
                    t.len() >= 2,
                    j <= t.len(),
                    rs.len() == done.len(),
                    status@ == offer_all(v, done, rs),
                    answered_all(speller, v, done, rs),
                    done + rest == all,
                ensures
                    rs.len() == done.len(),
                    status@ == offer_all(v, done, rs),
                    answered_all(speller, v, done, rs),
                    done + rest == all,
                    stopped ==> aborted(status@),
                    !stopped ==> rest == replace_two_from(lw, t, i + 2),
                decreases self.replacements.len() - j,
            {
                let from = self.replacements[j];
                let to = self.replacements[j + 1];
                j += 2;
                if from != replaced {
                    proof {
                        rest = replace_two_pairs(lw, t, i as int, j as int) + replace_two_from(
                            lw,
                            t,
                            i + 2,
                        );
                    }
                    continue;
                }
                let b1 = updated(lower.as_slice(), i, to);
                let buffer = updated(b1.as_slice(), i + 1, to);
                let Ghost(rs2) = offer_candidate(speller, status, &buffer, Ghost(v), Ghost(done), Ghost(rs));
                proof {
                    let nrest = replace_two_pairs(lw, t, i as int, j as int) + replace_two_from(
                        lw,
                        t,
                        i + 2,
                    );
                    assert(done.push(buffer@) + nrest =~= done + rest);
                    done = done.push(buffer@);
                    rs = rs2;
                    rest = nrest;
                }
                if status.should_abort() {
                    stopped = true;
                    break;
                }
            }
            if stopped {
                break;
            }
            if status.should_abort() {
                break;
            }
            i += 2;
        }
        proof {
            lemma_offers_finish(speller, v, done, rs, rest, all);
            lemma_offers_extends(speller, v, all, status@);
        }
    }
}

// ---------------------------------------------------------------------------
// Swap
// ---------------------------------------------------------------------------

/// The farthest two swapped characters may be apart in a word of `n`
/// characters.
pub open spec fn swap_distance(n: int) -> int {
    if n <= 8 {
        10int
    } else {
        50int / n
    }
}

/// Whether `a` and `b` are a back vowel and its front counterpart, in
/// either order; `VowelChange` tries those.
pub open spec fn harmony_pair(a: char, b: char) -> bool {
    ||| (a == 'a' && b == '\u{e4}')
    ||| (a == 'o' && b == '\u{f6}')
    ||| (a == 'u' && b == 'y')
    ||| (a == '\u{e4}' && b == 'a')
    ||| (a == '\u{f6}' && b == 'o')
    ||| (a == 'y' && b == 'u')
}

/// Whether `Swap` passes over swapping positions `i` and `j`: the letters
/// are equal (ignoring case), or a vowel and its counterpart.
pub open spec fn swap_skips(w: Seq<char>, i: int, j: int) -> bool {
    lowercase_of(w[i]) == lowercase_of(w[j]) || harmony_pair(lowercase_of(w[i]), lowercase_of(w[j]))
}

/// The candidates swapping position `i` with `j` and on, up to distance `d`.
pub open spec fn swap_inner(w: Seq<char>, d: int, i: int, j: int) -> Seq<Seq<char>>
    decreases w.len() - j,
{
    if j >= w.len() || j - i > d {
        seq![]
    } else if swap_skips(w, i, j) {
        swap_inner(w, d, i, j + 1)
    } else {
        seq![w.update(i, w[j]).update(j, w[i])] + swap_inner(w, d, i, j + 1)
    }
}

/// The swap candidates for first positions `i` and on.
pub open spec fn swap_from(w: Seq<char>, d: int, i: int) -> Seq<Seq<char>>
    decreases w.len() - i,
{
    if i >= w.len() {
        seq![]
    } else {
        swap_inner(w, d, i, i + 1) + swap_from(w, d, i + 1)
    }
}

/// The candidates of `Swap`: the word with two characters swapped, for
/// each pair not farther apart than `swap_distance`, in order of the first
/// position and then the second.
pub open spec fn swap_cands(w: Seq<char>) -> Seq<Seq<char>> {
    if w.len() < 2 || swap_distance(w.len() as int) == 0 {
        seq![]
    } else {
        swap_from(w, swap_distance(w.len() as int), 0)
    }
}

/// Swaps two characters.
pub struct Swap;

impl SuggestionGenerator for Swap {
    fn generate<S: Speller>(&self, speller: &S, status: &mut SuggestionStatus<'_>)
        ensures
            offers(speller, old(status)@, swap_cands(old(status)@.word), final(status)@),
    {
        let ghost v = status@;
        let word = status.word();
        let wlen = status.word_len();
        let ghost all = swap_cands(v.word);
        if wlen < 2 {
            proof {
                lemma_offers_none(speller, v);
                lemma_offers_extends(speller, v, all, status@);
            }
            return;
        }
        let max_distance: usize = if wlen <= 8 { 10 } else { 50 / wlen };
        if max_distance == 0 {
            proof {
                lemma_offers_none(speller, v);
                lemma_offers_extends(speller, v, all, status@);
            }
            return;
        }
        let ghost d = max_distance as int;
        let ghost mut done: Seq<Seq<char>> = Seq::empty();
        let ghost mut rs: Seq<SpellResult> = Seq::empty();
        let ghost mut rest = swap_from(word@, d, 0);
        proof {
            assert(done + rest =~= all);
        }
        let mut i: usize = 0;
        while i < wlen
            invariant_except_break
                rest == swap_from(word@, d, i as int),
            invariant
                word@ == v.word,
                wlen == word@.len(),
                d == max_distance,
                i <= wlen,
                rs.len() == done.len(),
                status@ == offer_all(v, done, rs),
                answered_all(speller, v, done, rs),
                done + rest == all,
            ensures
                rs.len() == done.len(),
                status@ == offer_all(v, done, rs),
                answered_all(speller, v, done, rs),
                done + rest == all,
                rest.len() > 0 ==> aborted(status@),
            decreases wlen - i,
        {
            if status.should_abort() {
                break;
            }
            proof {
                rest = swap_inner(word@, d, i as int, i + 1) + swap_from(word@, d, i + 1);
                assert(done + rest =~= all);
            }
            let mut j: usize = i + 1;
            while j < wlen
                invariant_except_break
                    rest == swap_inner(word@, d, i as int, j as int) + swap_from(word@, d, i + 1),
                invariant
                    word@ == v.word,
                    wlen == word@.len(),
                    d == max_distance,
                    i < wlen,
                    i + 1 <= j <= wlen,
                    rs.len() == done.len(),
                    status@ == offer_all(v, done, rs),
                    answered_all(speller, v, done, rs),
                    done + rest == all,
                ensures
                    rs.len() == done.len(),
                    status@ == offer_all(v, done, rs),
                    answered_all(speller, v, done, rs),
                    done + rest == all,
                    rest == swap_from(word@, d, i + 1) || aborted(status@),
                decreases wlen - j,
            {
                if status.should_abort() {
                    break;
                }
                if j - i > max_distance {
                    proof {
                        rest = swap_from(word@, d, i + 1);
                        assert(done + rest =~= all);
                    }
                    break;
                }
                let li = simple_lower(word[i]);
                let lj = simple_lower(word[j]);
                if li == lj || (li == 'a' && lj == '\u{e4}') || (li == 'o' && lj == '\u{f6}') || (
                li == 'u' && lj == 'y') || (li == '\u{e4}' && lj == 'a') || (li == '\u{f6}' && lj
                    == 'o') || (li == 'y' && lj == 'u') {
                    j += 1;
                    proof {
                        rest = swap_inner(word@, d, i as int, j as int) + swap_from(word@, d, i + 1);
                    }
                    continue;
                }
                let b1 = updated(word, i, word[j]);
                let buffer = updated(b1.as_slice(), j, word[i]);
                let Ghost(rs2) = offer_candidate(speller, status, &buffer, Ghost(v), Ghost(done), Ghost(rs));
                proof {
                    let nrest = swap_inner(word@, d, i as int, j + 1) + swap_from(word@, d, i + 1);
                    assert(done.push(buffer@) + nrest =~= done + rest);
                    done = done.push(buffer@);
                    rs = rs2;
                    rest = nrest;
                }
                j += 1;
            }
            proof {
                if j >= wlen && !aborted(status@) {
                    assert(swap_inner(word@, d, i as int, j as int) =~= Seq::<Seq<char>>::empty());
                    assert(rest =~= swap_from(word@, d, i + 1));
                }
            }
            if status.should_abort() {
                break;
            }
            i += 1;
        }
        proof {
            lemma_offers_finish(speller, v, done, rs, rest, all);
            lemma_offers_extends(speller, v, all, status@);
        }
    }
}

// ---------------------------------------------------------------------------
// DeleteTwo
// ---------------------------------------------------------------------------

/// Whether the two characters at `i` repeat right after them.
pub open spec fn repeated_pair(w: Seq<char>, i: int) -> bool {
    w[i] == w[i + 2] && w[i + 1] == w[i + 3]
}

/// `w` without the two characters at `i`.
pub open spec fn without_pair(w: Seq<char>, i: int) -> Seq<char> {
    w.take(i) + w.skip(i + 2)
}

/// The candidates deleting a repeated pair at positions `i` and on, each
/// word once; `seen` holds the words built before.
pub open spec fn delete_two_from(w: Seq<char>, i: int, seen: Seq<Seq<char>>) -> Seq<Seq<char>>
    decreases w.len() - i,
{
    if i + 3 >= w.len() {
        seq![]
    } else if repeated_pair(w, i) {
        if seen.contains(without_pair(w, i)) {
            delete_two_from(w, i + 1, seen)
        } else {
            seq![without_pair(w, i)] + delete_two_from(w, i + 1, seen.push(without_pair(w, i)))
        }
    } else {
        delete_two_from(w, i + 1, seen)
    }
}

/// The candidates of `DeleteTwo`, for words of six characters or more: the
/// word without a pair of characters that the next two repeat, each
/// distinct word once, left to right.
pub open spec fn delete_two_cands(w: Seq<char>) -> Seq<Seq<char>> {
    if w.len() < 6 {
        seq![]
    } else {
        delete_two_from(w, 0, seq![])
    }
}

/// `w` without the two characters at `i`.
fn removed_pair(w: &[char], i: usize) -> (r: Vec<char>)
    requires
        i + 2 <= w@.len(),
    ensures
        r@ == without_pair(w@, i as int),
{
    let mut r: Vec<char> = Vec::new();
    let mut k: usize = 0;
    while k < w.len()
        invariant
            i + 2 <= w@.len(),
            k <= w@.len(),
            r@ == (if k <= i {
                w@.take(k as int)
            } else if k <= i + 2 {
                w@.take(i as int)
            } else {
                w@.take(i as int) + w@.subrange(i + 2, k as int)
            }),
        decreases w.len() - k,
    {
        if k != i && k != i + 1 {
            r.push(w[k]);
        }
        k += 1;
        proof {
            assert(r@ =~= (if k <= i {
                w@.take(k as int)
            } else if k <= i + 2 {
                w@.take(i as int)
            } else {
                w@.take(i as int) + w@.subrange(i + 2, k as int)
            }));
        }
    }
    proof {
        assert(w@.subrange(i + 2, w@.len() as int) =~= w@.skip(i + 2));
        assert(without_pair(w@, i as int) =~= w@.take(i as int) + w@.subrange(i + 2, w@.len() as int));
    }
    r
}

/// Deletes a repeated pair of characters.
pub struct DeleteTwo;

impl SuggestionGenerator for DeleteTwo {
    fn generate<S: Speller>(&self, speller: &S, status: &mut SuggestionStatus<'_>)
        ensures
            offers(speller, old(status)@, delete_two_cands(old(status)@.word), final(status)@),
    {
        let ghost v = status@;
        let word = status.word();
        let wlen = status.word_len();
        let ghost all = delete_two_cands(v.word);
        if wlen < 6 {
            proof {
                lemma_offers_none(speller, v);
                lemma_offers_extends(speller, v, all, status@);
            }
            return;
        }
        let mut seen: Vec<Vec<char>> = Vec::new();
        let ghost mut seen_v: Seq<Seq<char>> = Seq::empty();
        let ghost mut done: Seq<Seq<char>> = Seq::empty();
        let ghost mut rs: Seq<SpellResult> = Seq::empty();
        let ghost mut rest = delete_two_from(word@, 0, seen_v);
        proof {
            assert(done + rest =~= all);
        }
        let mut i: usize = 0;
        while i < wlen - 3
            invariant_except_break
                rest == delete_two_from(word@, i as int, seen_v),
            invariant
                word@ == v.word,
                wlen == word@.len(),
                wlen >= 6,
                i <= wlen - 3,
                seen@.len() == seen_v.len(),
                forall|k: int| 0 <= k < seen_v.len() ==> #[trigger] seen@[k]@ == seen_v[k],
                rs.len() == done.len(),
                status@ == offer_all(v, done, rs),
                answered_all(speller, v, done, rs),
                done + rest == all,
            ensures
                rs.len() == done.len(),
                status@ == offer_all(v, done, rs),
                answered_all(speller, v, done, rs),
                done + rest == all,
                rest.len() > 0 ==> aborted(status@),
            decreases wlen - i,
        {
            if status.should_abort() {
                break;
            }
            if word[i] == word[i + 2] && word[i + 1] == word[i + 3] {
                let buffer = removed_pair(word, i);
                let mut known = false;
                let mut k: usize = 0;
                while k < seen.len()
                    invariant
                        k <= seen@.len(),
                        seen@.len() == seen_v.len(),
                        forall|q: int| 0 <= q < seen_v.len() ==> #[trigger] seen@[q]@ == seen_v[q],
                        known == (exists|q: int| 0 <= q < k && seen_v[q] == buffer@),
                    decreases seen.len() - k,
                {
                    if crate::text::chars_eq(seen[k].as_slice(), buffer.as_slice()) {
                        known = true;
                    }
                    k += 1;
                }
                proof {
                    assert(known == seen_v.contains(buffer@));
                }
                if !known {
                    let Ghost(rs2) = offer_candidate(speller, status, &buffer, Ghost(v), Ghost(done), Ghost(rs));
                    proof {
                        let nrest = delete_two_from(word@, i + 1, seen_v.push(buffer@));
                        assert(done.push(buffer@) + nrest =~= done + rest);
                        done = done.push(buffer@);
                        rs = rs2;
                        rest = nrest;
                        seen_v = seen_v.push(buffer@);
                    }
                    seen.push(buffer);
                } else {
                    proof {
                        rest = delete_two_from(word@, i + 1, seen_v);
                    }
                }
            } else {
                proof {
                    rest = delete_two_from(word@, i + 1, seen_v);
                }
            }
            i += 1;
        }
        proof {
            lemma_offers_finish(speller, v, done, rs, rest, all);
            lemma_offers_extends(speller, v, all, status@);
        }
    }
}

// ---------------------------------------------------------------------------
// VowelChange
// ---------------------------------------------------------------------------

/// Where `c` stands among the back vowels `a o u A O U`, or else among
/// the front vowels `ä ö y Ä Ö Y`.
pub open spec fn harmony_index(c: char) -> Option<usize> {
    if c == 'a' || c == '\u{e4}' {
        Some(0)
    } else if c == 'o' || c == '\u{f6}' {
        Some(1)
    } else if c == 'u' || c == 'y' {
        Some(2)
    } else if c == 'A' || c == '\u{c4}' {
        Some(3)
    } else if c == 'O' || c == '\u{d6}' {
        Some(4)
    } else if c == 'U' || c == 'Y' {
        Some(5)
    } else {
        None
    }
}

/// The counterpart of a back or front vowel (`a` and `ä`, `o` and `ö`,
/// `u` and `y`, in either case); other characters stay.
pub open spec fn flipped_vowel(c: char) -> char {
    if c == 'a' {
        '\u{e4}'
    } else if c == 'o' {
        '\u{f6}'
    } else if c == 'u' {
        'y'
    } else if c == 'A' {
        '\u{c4}'
    } else if c == 'O' {
        '\u{d6}'
    } else if c == 'U' {
        'Y'
    } else if c == '\u{e4}' {
        'a'
    } else if c == '\u{f6}' {
        'o'
    } else if c == 'y' {
        'u'
    } else if c == '\u{c4}' {
        'A'
    } else if c == '\u{d6}' {
        'O'
    } else if c == 'Y' {
        'U'
    } else {
        c
    }
}

/// How many back or front vowels `w` has before position `i`.
pub open spec fn vowels_before(w: Seq<char>, i: int) -> int
    decreases i,
{
    if i <= 0 {
        0
    } else {
        vowels_before(w, i - 1) + if harmony_index(w[i - 1]) is Some {
            1int
        } else {
            0
        }
    }
}

/// `w` with the vowels whose number (counting the back and front vowels
/// from 0, left to right) is a bit set in `pat` changed to their
/// counterparts.
pub open spec fn vowels_flipped(w: Seq<char>, pat: u32) -> Seq<char> {
    Seq::new(
        w.len(),
        |i: int|
            if harmony_index(w[i]) is Some && pat & (1u32 << (vowels_before(w, i) as u32)) != 0 {
                flipped_vowel(w[i])
            } else {
                w[i]
            },
    )
}

/// `2^n - 1`: the bit pattern with the `n` lowest bits set.
pub open spec fn low_bits(n: int) -> int
    decreases n,
{
    if n <= 0 {
        0
    } else {
        2 * low_bits(n - 1) + 1
    }
}

/// The candidates of `VowelChange`, for words with one to seven back or
/// front vowels: the word with each nonempty set of its vowels changed to
/// their counterparts, the sets taken in the order of their bit patterns.
pub open spec fn vowel_change_cands(w: Seq<char>) -> Seq<Seq<char>> {
    let n = vowels_before(w, w.len() as int);
    if n == 0 || n > 7 {
        seq![]
    } else {
        Seq::new(low_bits(n) as nat, |p: int| vowels_flipped(w, (p + 1) as u32))
    }
}

proof fn lemma_vowels_before_nonneg(w: Seq<char>, i: int)
    ensures
        vowels_before(w, i) >= 0,
    decreases i,
{
    if i > 0 {
        lemma_vowels_before_nonneg(w, i - 1);
    }
}

proof fn lemma_vowels_before_monotone(w: Seq<char>, i: int, j: int)
    requires
        i <= j,
    ensures
        vowels_before(w, i) <= vowels_before(w, j),
    decreases j - i,
{
    if i < j {
        lemma_vowels_before_monotone(w, i, j - 1);
        if j > 0 {
            lemma_vowels_before_nonneg(w, j - 1);
        } else {
            lemma_vowels_before_nonneg(w, i);
        }
    }
}

proof fn lemma_low_bits_bound(n: int)
    requires
        0 <= n <= 7,
    ensures
        0 <= low_bits(n) <= 127,
        n >= 1 ==> low_bits(n) >= 1,
{
    assert(low_bits(0) == 0);
    assert(low_bits(1) == 1);
    assert(low_bits(2) == 3);
    assert(low_bits(3) == 7);
    assert(low_bits(4) == 15);
    assert(low_bits(5) == 31);
    assert(low_bits(6) == 63);
    assert(low_bits(7) == 127);
    assert(n == 0 || n == 1 || n == 2 || n == 3 || n == 4 || n == 5 || n == 6 || n == 7);
}

/// Changes back and front vowels into each other.
pub struct VowelChange;

impl VowelChange {
    /// The position of `c` among the back vowels, or else among the front
    /// vowels.
    pub fn vowel_index(c: char) -> (r: Option<usize>)
        ensures
            r == harmony_index(c),
    {
        if c == 'a' || c == '\u{e4}' {
            Some(0)
        } else if c == 'o' || c == '\u{f6}' {
            Some(1)
        } else if c == 'u' || c == 'y' {
            Some(2)
        } else if c == 'A' || c == '\u{c4}' {
            Some(3)
        } else if c == 'O' || c == '\u{d6}' {
            Some(4)
        } else if c == 'U' || c == 'Y' {
            Some(5)
        } else {
            None
        }
    }
}

impl SuggestionGenerator for VowelChange {
    fn generate<S: Speller>(&self, speller: &S, status: &mut SuggestionStatus<'_>)
        ensures
            offers(speller, old(status)@, vowel_change_cands(old(status)@.word), final(status)@),
    {
        let ghost v = status@;
        let word = status.word();
        let wlen = status.word_len();
        let ghost all = vowel_change_cands(v.word);
        let mut vcount: usize = 0;
        let mut i: usize = 0;
        while i < wlen
            invariant
                wlen == word@.len(),
                i <= wlen,
                vcount == vowels_before(word@, i as int),
                vcount <= i,
            decreases wlen - i,
        {
            if VowelChange::vowel_index(word[i]).is_some() {
                vcount += 1;
            }
            i += 1;
        }
        if vcount == 0 || vcount > 7 {
            proof {
                assert(all =~= Seq::<Seq<char>>::empty());
                lemma_offers_none(speller, v);
                lemma_offers_extends(speller, v, all, status@);
            }
            return;
        }
        let mut mask: u32 = 0;
        let mut k: usize = 0;
        while k < vcount
            invariant
                1 <= vcount <= 7,
                k <= vcount,
                mask == low_bits(k as int),
            decreases vcount - k,
        {
            proof {
                lemma_low_bits_bound(k as int);
            }
            mask = mask * 2 + 1;
            k += 1;
        }
        proof {
            lemma_low_bits_bound(vcount as int);
        }
        let ghost mut done: Seq<Seq<char>> = Seq::empty();
        let ghost mut rs: Seq<SpellResult> = Seq::empty();
        let mut pat: u32 = 1;
        while pat <= mask
            invariant
                old(status)@ == v,
                word@ == v.word,
                wlen == word@.len(),
                1 <= vcount <= 7,
                vcount == vowels_before(word@, wlen as int),
                mask == low_bits(vcount as int),
                1 <= mask <= 127,
                1 <= pat <= mask + 1,
                all.len() == mask,
                all == vowel_change_cands(word@),
                done == all.take(pat - 1),
                rs.len() == done.len(),
                status@ == offer_all(v, done, rs),
                answered_all(speller, v, done, rs),
            decreases mask + 1 - pat,
        {
            let mut buffer: Vec<char> = Vec::new();
            let mut vowel_idx: u32 = 0;
            let mut i: usize = 0;
            while i < wlen
                invariant
                    wlen == word@.len(),
                    vcount == vowels_before(word@, wlen as int),
                    vcount <= 7,
                    i <= wlen,
                    vowel_idx == vowels_before(word@, i as int),
                    buffer@ == vowels_flipped(word@, pat).take(i as int),
                decreases wlen - i,
            {
                let c = word[i];
                proof {
                    lemma_vowels_before_monotone(word@, i + 1, wlen as int);
                    lemma_vowels_before_nonneg(word@, i as int);
                }
                match VowelChange::vowel_index(c) {
                    Some(_) => {
                        let mut n = c;
                        if pat & (1u32 << vowel_idx) != 0 {
                            n = flip_vowel(c);
                        }
                        buffer.push(n);
                        vowel_idx += 1;
                    },
                    None => {
                        buffer.push(c);
                    },
                }
                i += 1;
                proof {
                    assert(buffer@ =~= vowels_flipped(word@, pat).take(i as int));
                }
            }
            proof {
                assert(buffer@ =~= vowels_flipped(word@, pat));
                assert(all[pat - 1] == buffer@);
            }
            if status.should_abort() {
                proof {
                    assert(done + all.skip(pat - 1) =~= all);
                    lemma_offers_finish(speller, v, done, rs, all.skip(pat - 1), all);
                    lemma_offers_extends(speller, v, all, status@);
                }
                return;
            }
            let Ghost(rs2) = offer_candidate(speller, status, &buffer, Ghost(v), Ghost(done), Ghost(rs));
            proof {
                assert(done.push(buffer@) =~= all.take(pat as int));
                done = done.push(buffer@);
                rs = rs2;
            }
            pat += 1;
        }
        proof {
            assert(done =~= all);
            assert(done + Seq::<Seq<char>>::empty() =~= all);
            lemma_offers_finish(speller, v, done, rs, Seq::empty(), all);
            lemma_offers_extends(speller, v, all, status@);
        }
    }
}

/// The counterpart of a back or front vowel.
fn flip_vowel(c: char) -> (r: char)
    ensures
        r == flipped_vowel(c),
{
    if c == 'a' {
        '\u{e4}'
    } else if c == 'o' {
        '\u{f6}'
    } else if c == 'u' {
        'y'
    } else if c == 'A' {
        '\u{c4}'
    } else if c == 'O' {
        '\u{d6}'
    } else if c == 'U' {
        'Y'
    } else if c == '\u{e4}' {
        'a'
    } else if c == '\u{f6}' {
        'o'
    } else if c == 'y' {
        'u'
    } else if c == '\u{c4}' {
        'A'
    } else if c == '\u{d6}' {
        'O'
    } else if c == 'Y' {
        'U'
    } else {
        c
    }
}

// ---------------------------------------------------------------------------
// MultiReplacement
// ---------------------------------------------------------------------------

/// The candidates of the pairs `t[i], t[i + 1]` and on, replacing in `b`
/// at positions `start` and on, with `rem` replacements left to make.
pub open spec fn multi_pairs(t: Seq<char>, b: Seq<char>, start: nat, rem: nat, i: nat) -> Seq<
    Seq<char>,
>
    decreases rem, t.len() - i, b.len() + 1,
{
    if i + 1 >= t.len() || start > b.len() {
        seq![]
    } else {
        multi_positions(t, b, start, rem, i, start) + multi_pairs(t, b, start, rem, i + 2)
    }
}

/// The candidates of the pair `t[i], t[i + 1]` at positions `pos` and on:
/// where `b` has `t[i]`, it is replaced by `t[i + 1]`; with more
/// replacements left, the search goes on from that position in the
/// changed word, else the changed word is a candidate.
pub open spec fn multi_positions(
    t: Seq<char>,
    b: Seq<char>,
    start: nat,
    rem: nat,
    i: nat,
    pos: nat,
) -> Seq<Seq<char>>
    decreases rem, t.len() - i, b.len() - pos,
{
    if pos >= b.len() || i + 1 >= t.len() {
        seq![]
    } else if b[pos as int] != t[i as int] {
        multi_positions(t, b, start, rem, i, pos + 1)
    } else {
        let nb = b.update(pos as int, t[i + 1 as int]);
        (if rem <= 1 {
            seq![nb]
        } else {
            multi_pairs(t, nb, pos, (rem - 1) as nat, 0)
        }) + multi_positions(t, b, start, rem, i, pos + 1)
    }
}

/// The candidates of `MultiReplacement` with the table `t` and up to `n`
/// replacements: the words with exactly `n` replacements made, each at a
/// position no earlier than the one before.
pub open spec fn multi_cands(w: Seq<char>, t: Seq<char>, n: nat) -> Seq<Seq<char>> {
    if n == 0 {
        seq![]
    } else {
        multi_pairs(t, w, 0, n, 0)
    }
}

/// Makes several replacements from a table of pairs at once.
pub struct MultiReplacement {
    /// Flat replacement pairs: `[from1, to1, from2, to2, ...]`.
    pub replacements: Vec<char>,
    /// How many replacements each candidate has.
    pub replace_count: usize,
}

impl MultiReplacement {
    /// Offers the candidates of `multi_pairs` for `buffer`; the buffer is
    /// given back unchanged unless the search ended.
    fn do_generate<S: Speller>(
        &self,
        speller: &S,
        status: &mut SuggestionStatus<'_>,
        buffer: &mut Vec<char>,
        start: usize,
        remaining: usize,
        Ghost(v): Ghost<StatusView>,
        Ghost(done): Ghost<Seq<Seq<char>>>,
        Ghost(rs): Ghost<Seq<SpellResult>>,
    ) -> (r: (Ghost<Seq<Seq<char>>>, Ghost<Seq<SpellResult>>, Ghost<Seq<Seq<char>>>))
        requires
            remaining >= 1,
            start <= old(buffer)@.len(),
            rs.len() == done.len(),
            old(status)@ == offer_all(v, done, rs),
            answered_all(speller, v, done, rs),
        ensures
            final(buffer)@.len() == old(buffer)@.len(),
            r.1@.len() == r.0@.len(),
            final(status)@ == offer_all(v, r.0@, r.1@),
            answered_all(speller, v, r.0@, r.1@),
            r.0@ + r.2@ == done + multi_pairs(
                self.replacements@,
                old(buffer)@,
                start as nat,
                remaining as nat,
                0,
            ),
            r.2@.len() > 0 ==> aborted(final(status)@),
            !aborted(final(status)@) ==> final(buffer)@ == old(buffer)@,
        decreases remaining,
    {
        let ghost t = self.replacements@;
        let ghost b0 = buffer@;
        let ghost rem = remaining as nat;
        let ghost goal = done + multi_pairs(t, b0, start as nat, rem, 0);
        let wlen = buffer.len();
        let ghost mut dn = done;
        let ghost mut rn = rs;
        if self.replacements.len() < 2 {
            proof {
                assert(goal =~= dn + Seq::<Seq<char>>::empty());
            }
            return (Ghost(dn), Ghost(rn), Ghost(Seq::empty()));
        }
        let ghost mut rest = multi_pairs(t, b0, start as nat, rem, 0);
        let mut i: usize = 0;
        while i < self.replacements.len() - 1
            invariant_except_break
                rest == multi_pairs(t, b0, start as nat, rem, i as nat),
                buffer@ == b0,
            invariant
                t == self.replacements@,
                t.len() >= 2,
                i <= t.len(),
                wlen == b0.len(),
                buffer@.len() == b0.len(),
                start <= wlen,
                rem == remaining,
                remaining >= 1,
                rn.len() == dn.len(),
                status@ == offer_all(v, dn, rn),
                answered_all(speller, v, dn, rn),
                dn + rest == goal,
            ensures
                buffer@.len() == b0.len(),
                rn.len() == dn.len(),
                status@ == offer_all(v, dn, rn),
                answered_all(speller, v, dn, rn),
                dn + rest == goal,
                rest.len() > 0 ==> aborted(status@),
                !aborted(status@) ==> buffer@ == b0,
            decreases t.len() - i,
        {
            let from = self.replacements[i];
            let to = self.replacements[i + 1];
            let ghost pi = i as nat;
            i += 2;
            proof {
                rest = multi_positions(t, b0, start as nat, rem, pi, start as nat) + multi_pairs(
                    t,
                    b0,
                    start as nat,
                    rem,
                    i as nat,
                );
            }
            let mut stopped = false;
            let mut pos: usize = start;
            while pos < wlen
                invariant_except_break
                    rest == multi_positions(t, b0, start as nat, rem, pi, pos as nat) + multi_pairs(
                        t,
                        b0,
                        start as nat,
                        rem,
                        i as nat,
                    ),
                    buffer@ == b0,
                    !stopped,
                invariant
                    t == self.replacements@,
                    pi + 2 == i,
                    i <= t.len(),
                    from == t[pi as int],
                    to == t[pi + 1 as int],
                    wlen == b0.len(),
                    buffer@.len() == b0.len(),
                    start <= pos <= wlen,
                    rem == remaining,
                    remaining >= 1,
                    rn.len() == dn.len(),
                    status@ == offer_all(v, dn, rn),
                    answered_all(speller, v, dn, rn),
                    dn + rest == goal,
                ensures
                    buffer@.len() == b0.len(),
                    rn.len() == dn.len(),
                    status@ == offer_all(v, dn, rn),
                    answered_all(speller, v, dn, rn),
                    dn + rest == goal,
                    stopped ==> aborted(status@),
                    !stopped ==> rest == multi_pairs(t, b0, start as nat, rem, i as nat)
                        && buffer@ == b0,
                decreases wlen - pos,
            {
                if buffer[pos] != from {
                    pos += 1;
                    proof {
                        rest = multi_positions(t, b0, start as nat, rem, pi, pos as nat)
                            + multi_pairs(t, b0, start as nat, rem, i as nat);
                    }
                    continue;
                }
                buffer.set(pos, to);
                let ghost nb = buffer@;
                proof {
                    assert(nb =~= b0.update(pos as int, t[pi + 1 as int]));
                }
                let ghost tail = multi_positions(t, b0, start as nat, rem, pi, (pos + 1) as nat)
                    + multi_pairs(t, b0, start as nat, rem, i as nat);
                let ghost mut left: Seq<Seq<char>> = Seq::empty();
                if remaining == 1 {
                    let Ghost(rs2) = offer_candidate(speller, status, buffer, Ghost(v), Ghost(dn), Ghost(rn));
                    proof {
                        assert(dn.push(nb) + tail =~= dn + rest);
                        dn = dn.push(nb);
                        rn = rs2;
                    }
                } else {
                    let (Ghost(d2), Ghost(r2), Ghost(l2)) = self.do_generate(
                        speller,
                        status,
                        buffer,
                        pos,
                        remaining - 1,
                        Ghost(v),
                        Ghost(dn),
                        Ghost(rn),
                    );
                    proof {
                        assert(b0[pos as int] == t[pi as int]);
                        assert(multi_positions(t, b0, start as nat, rem, pi, pos as nat) == multi_pairs(
                            t,
                            nb,
                            pos as nat,
                            (rem - 1) as nat,
                            0,
                        ) + multi_positions(t, b0, start as nat, rem, pi, (pos + 1) as nat));
                        let pn = multi_pairs(t, nb, pos as nat, (rem - 1) as nat, 0);
                        assert(d2 + l2 == dn + pn);
                        assert(rest =~= pn + tail);
                        assert(d2 + (l2 + tail) =~= (d2 + l2) + tail);
                        assert((dn + pn) + tail =~= dn + (pn + tail));
                        assert(d2 + (l2 + tail) =~= dn + rest);
                        dn = d2;
                        rn = r2;
                        left = l2;
                    }
                }
                if status.should_abort() {
                    proof {
                        rest = left + tail;
                    }
                    stopped = true;
                    break;
                }
                proof {
                    assert(left.len() == 0);
                    assert(left + tail =~= tail);
                }
                buffer.set(pos, from);
                proof {
                    assert(buffer@ =~= b0);
                }
                pos += 1;
                proof {
                    rest = tail;
                }
            }
            if stopped {
                break;
            }
        }
        (Ghost(dn), Ghost(rn), Ghost(rest))
    }
}

impl SuggestionGenerator for MultiReplacement {
    fn generate<S: Speller>(&self, speller: &S, status: &mut SuggestionStatus<'_>)
        ensures
            offers(
                speller,
                old(status)@,
                multi_cands(old(status)@.word, self.replacements@, self.replace_count as nat),
                final(status)@,
            ),
    {
        let ghost v = status@;
        let ghost all = multi_cands(v.word, self.replacements@, self.replace_count as nat);
        if self.replace_count == 0 {
            proof {
                lemma_offers_none(speller, v);
                lemma_offers_extends(speller, v, all, status@);
            }
            return;
        }
        let word = status.word();
        let mut buffer = copied(word);
        let (Ghost(done), Ghost(rs), Ghost(rest)) = self.do_generate(
            speller,
            status,
            &mut buffer,
            0,
            self.replace_count,
            Ghost(v),
            Ghost(Seq::empty()),
            Ghost(Seq::empty()),
        );
        proof {
            assert(Seq::<Seq<char>>::empty() + all =~= all);
            lemma_offers_finish(speller, v, done, rs, rest, all);
            lemma_offers_extends(speller, v, all, status@);
        }
    }
}

// ---------------------------------------------------------------------------
// SplitWord
// ---------------------------------------------------------------------------

/// Whether the speller's answer accepts a word part.
pub open spec fn accepted(r: SpellResult) -> bool {
    r == SpellResult::Correct || r == SpellResult::CapitalizeFirst
}

/// A word part as `spell_ok` asks the speller about it: an uppercase first
/// letter lowercased.
pub open spec fn first_lowered(x: Seq<char>) -> Seq<char> {
    if spec_is_upper(x[0]) {
        x.update(0, lowercase_of(x[0]))
    } else {
        x
    }
}

/// A word part after `spell_ok` checked it and the speller answered `r`: an
/// uppercase first letter is lowercased for the check and put back in
/// uppercase, and a part that needs a capital gets one.
pub open spec fn spell_ok_word(x: Seq<char>, r: SpellResult) -> Seq<char> {
    let up = spec_is_upper(x[0]);
    let y = if up {
        x.update(0, lowercase_of(x[0]))
    } else {
        x
    };
    if up || r == SpellResult::CapitalizeFirst {
        y.update(0, uppercase_of(y[0]))
    } else {
        y
    }
}

/// Whether `SplitWord` passes over splitting before position `k`: there is
/// a hyphen next to the split.
pub open spec fn split_skips(w: Seq<char>, k: int) -> bool {
    w[k - 2] == '-' || w[k - 1] == '-' || (k + 1 < w.len() && w[k + 1] == '-')
}

/// The search state after trying to split `w` before position `k`, the
/// speller answering `r1` for the first part, `r2` for the first part
/// without a final dot (asked only when the first part fails and ends with
/// a dot), and `r3` for the second part (asked only when the first part is
/// accepted). A hyphen at the split point is dropped, and the priority of
/// the suggestion is then multiplied by six. Each question is charged.
pub open spec fn split_step(
    v: StatusView,
    w: Seq<char>,
    k: int,
    r1: SpellResult,
    r2: SpellResult,
    r3: SpellResult,
) -> StatusView {
    let strip: int = if w[k] == '-' {
        1
    } else {
        0
    };
    let p1 = spell_ok_word(w.take(k), r1);
    let s1 = charged(v);
    let retry = !accepted(r1) && p1[k - 1] == '.';
    let p1b = if retry {
        spell_ok_word(p1.take(k - 1), r2) + p1.skip(k - 1)
    } else {
        p1
    };
    let s2 = if retry {
        charged(s1)
    } else {
        s1
    };
    let ok1 = accepted(r1) || (retry && accepted(r2));
    let prio1 = if accepted(r1) {
        priority_of(r1)
    } else {
        priority_of(r2)
    };
    if !ok1 {
        s2
    } else {
        let p2 = spell_ok_word(w.skip(k + strip), r3);
        let s3 = charged(s2);
        if accepted(r3) {
            add_found(s3, p1b + seq![' '] + p2, ((prio1 + priority_of(r3)) * (1 + 5 * strip)) as i32)
        } else {
            s3
        }
    }
}

/// The answers `r1`, `r2`, `r3` of a split of `w` before `k` are answers
/// that `speller` may give to the questions that the split asks: about the
/// first part, about the first part without its final dot when that is
/// tried, and about the second part when the first was accepted (each with
/// an uppercase first letter lowercased).
pub open spec fn split_answers<S: Speller>(
    speller: &S,
    w: Seq<char>,
    k: int,
    r1: SpellResult,
    r2: SpellResult,
    r3: SpellResult,
) -> bool {
    let strip: int = if w[k] == '-' {
        1
    } else {
        0
    };
    let p1 = spell_ok_word(w.take(k), r1);
    let retry = !accepted(r1) && p1[k - 1] == '.';
    let ok1 = accepted(r1) || (retry && accepted(r2));
    &&& speller_answer(speller, first_lowered(w.take(k)), r1)
    &&& retry ==> speller_answer(speller, first_lowered(p1.take(k - 1)), r2)
    &&& ok1 ==> speller_answer(speller, first_lowered(w.skip(k + strip)), r3)
}

/// Whether the search state `after` is reached from `before` by
/// `SplitWord` trying the split points `k`, `k - 1`, ..., `2` in turn, for
/// answers that `speller` may give; it stops after a split that ends the
/// search.
pub open spec fn split_reaches<S: Speller>(
    speller: &S,
    before: StatusView,
    w: Seq<char>,
    k: int,
    after: StatusView,
) -> bool
    decreases k,
{
    if k < 2 {
        after == before
    } else if split_skips(w, k) {
        split_reaches(speller, before, w, k - 1, after)
    } else {
        exists|r1: SpellResult, r2: SpellResult, r3: SpellResult|
            #![trigger split_step(before, w, k, r1, r2, r3)]
            {
                let mid = split_step(before, w, k, r1, r2, r3);
                &&& split_answers(speller, w, k, r1, r2, r3)
                &&& if aborted(mid) {
                    after == mid
                } else {
                    split_reaches(speller, mid, w, k - 1, after)
                }
            }
    }
}

/// What `SplitWord` does: for words of four characters or more, it tries
/// the split points from two characters before the end down to two
/// characters after the start.
pub open spec fn split_word_reaches<S: Speller>(speller: &S, before: StatusView, after: StatusView) -> bool {
    if before.word.len() < 4 {
        after == before
    } else {
        split_reaches(speller, before, before.word, before.word.len() - 2, after)
    }
}

/// Splits the word in two words.
pub struct SplitWord;

impl SplitWord {
    /// Checks the first `len` characters of `word` as a word, with its first
    /// letter in lowercase, charging the call; puts a capital back where it
    /// was or where the speller asks for one. Returns whether the part is
    /// accepted and the priority of the answer.
    fn spell_ok<S: Speller>(
        speller: &S,
        status: &mut SuggestionStatus<'_>,
        word: &mut Vec<char>,
        len: usize,
    ) -> (r: (bool, i32))
        requires
            1 <= len <= old(word)@.len(),
        ensures
            final(status)@ == charged(old(status)@),
            exists|res: SpellResult|
                #![trigger spell_ok_word(old(word)@.take(len as int), res)]
                final(word)@ == spell_ok_word(old(word)@.take(len as int), res) + old(word)@.skip(
                    len as int,
                ) && r == (accepted(res), priority_of(res)) && speller_answer(
                    speller,
                    first_lowered(old(word)@.take(len as int)),
                    res,
                ),
    {
        let ghost x = word@.take(len as int);
        let ghost tail = word@.skip(len as int);
        proof {
            assert(word@ =~= x + tail);
        }
        let first_upper = is_upper(word[0]);
        if first_upper {
            let l = simple_lower(word[0]);
            word.set(0, l);
        }
        let ghost asked = word@.take(len as int);
        assert(asked =~= first_lowered(x));
        let result = ask_speller(speller, word.as_slice(), len);
        status.charge();
        if first_upper || result == SpellResult::CapitalizeFirst {
            let u = simple_upper(word[0]);
            word.set(0, u);
        }
        let ok = result == SpellResult::Correct || result == SpellResult::CapitalizeFirst;
        proof {
            assert(word@ =~= spell_ok_word(x, result) + tail);
        }
        (ok, priority_from_result(result))
    }
}

proof fn lemma_charged_extends(v: StatusView)
    ensures
        extends(v, charged(v)),
{
    lemma_extends_refl(v);
}

proof fn lemma_add_found_extends(v: StatusView, w: Seq<char>, p: i32)
    ensures
        extends(v, add_found(v, w, p)),
{
    lemma_extends_refl(v);
    if add_found(v, w, p) != v {
        assert(add_found(v, w, p).found.take(v.found.len() as int) =~= v.found);
    }
}

proof fn lemma_split_step_extends(
    v: StatusView,
    w: Seq<char>,
    k: int,
    r1: SpellResult,
    r2: SpellResult,
    r3: SpellResult,
)
    ensures
        extends(v, split_step(v, w, k, r1, r2, r3)),
{
    let s1 = charged(v);
    lemma_charged_extends(v);
    lemma_charged_extends(s1);
    lemma_extends_trans(v, s1, charged(s1));
    let s2 = if !accepted(r1) && spell_ok_word(w.take(k), r1)[k - 1] == '.' {
        charged(s1)
    } else {
        s1
    };
    lemma_charged_extends(s2);
    lemma_extends_trans(v, s2, charged(s2));
    let strip: int = if w[k] == '-' {
        1
    } else {
        0
    };
    let p1 = spell_ok_word(w.take(k), r1);
    let p1b = if !accepted(r1) && p1[k - 1] == '.' {
        spell_ok_word(p1.take(k - 1), r2) + p1.skip(k - 1)
    } else {
        p1
    };
    let prio1 = if accepted(r1) {
        priority_of(r1)
    } else {
        priority_of(r2)
    };
    let p2 = spell_ok_word(w.skip(k + strip), r3);
    lemma_add_found_extends(
        charged(s2),
        p1b + seq![' '] + p2,
        ((prio1 + priority_of(r3)) * (1 + 5 * strip)) as i32,
    );
    lemma_extends_trans(
        v,
        charged(s2),
        add_found(
            charged(s2),
            p1b + seq![' '] + p2,
            ((prio1 + priority_of(r3)) * (1 + 5 * strip)) as i32,
        ),
    );
}

proof fn lemma_split_reaches_skip<S: Speller>(
    speller: &S,
    before: StatusView,
    w: Seq<char>,
    k: int,
    after: StatusView,
)
    requires
        k >= 2,
        split_skips(w, k),
        split_reaches(speller, before, w, k - 1, after),
    ensures
        split_reaches(speller, before, w, k, after),
{
}

proof fn lemma_split_reaches_step<S: Speller>(
    speller: &S,
    before: StatusView,
    w: Seq<char>,
    k: int,
    r1: SpellResult,
    r2: SpellResult,
    r3: SpellResult,
    after: StatusView,
)
    requires
        k >= 2,
        !split_skips(w, k),
        split_answers(speller, w, k, r1, r2, r3),
        ({
            let mid = split_step(before, w, k, r1, r2, r3);
            if aborted(mid) {
                after == mid
            } else {
                split_reaches(speller, mid, w, k - 1, after)
            }
        }),
    ensures
        split_reaches(speller, before, w, k, after),
{
    let mid = split_step(before, w, k, r1, r2, r3);
    assert(mid == split_step(before, w, k, r1, r2, r3));
}

/// Tries splitting the word before position `splitind`.
#[verifier::rlimit(80)]
#[verifier::spinoff_prover]
fn try_split<S: Speller>(speller: &S, status: &mut SuggestionStatus<'_>, word: &[char], splitind: usize)
    requires
        2 <= splitind,
        splitind + 2 <= word@.len(),
    ensures
        exists|r1: SpellResult, r2: SpellResult, r3: SpellResult|
            #![trigger split_step(old(status)@, word@, splitind as int, r1, r2, r3)]
            final(status)@ == split_step(old(status)@, word@, splitind as int, r1, r2, r3)
                && split_answers(speller, word@, splitind as int, r1, r2, r3),
{
    let ghost prev = status@;
    let ghost k = splitind as int;
    let wlen = word.len();
    let strip: usize = if word[splitind] == '-' { 1 } else { 0 };
    let mut part1 = copied(word);
    part1.truncate(splitind);
    proof {
        assert(part1@ =~= word@.take(k));
    }
    let ghost p1_0 = part1@;
    let (ok_a, prio_a) = SplitWord::spell_ok(speller, status, &mut part1, splitind);
    let ghost r1 = choose|res: SpellResult|
        #![trigger spell_ok_word(p1_0.take(k), res)]
        part1@ == spell_ok_word(p1_0.take(k), res) + p1_0.skip(k) && (ok_a, prio_a) == (
            accepted(res),
            priority_of(res),
        ) && speller_answer(speller, first_lowered(p1_0.take(k)), res);
    proof {
        assert(p1_0.take(k) =~= word@.take(k));
        assert(p1_0.skip(k) =~= Seq::<char>::empty());
        assert(part1@ =~= spell_ok_word(word@.take(k), r1));
    }
    let ghost p1 = part1@;
    let ghost retry = !accepted(r1) && p1[k - 1] == '.';
    proof {
        assert(status@ == charged(prev));
        assert(ok_a == accepted(r1));
    }
    let ghost mut r2 = SpellResult::Failed;
    let mut ok1 = ok_a;
    let mut prio_total = prio_a;
    proof {
        assert(ok1 ==> 1 <= prio_total <= 2);
    }
    if !ok1 && part1[splitind - 1] == '.' {
        let (ok_nd, prio_nd) = SplitWord::spell_ok(speller, status, &mut part1, splitind - 1);
        proof {
            r2 = choose|res: SpellResult|
                #![trigger spell_ok_word(p1.take(k - 1), res)]
                part1@ == spell_ok_word(p1.take(k - 1), res) + p1.skip(k - 1) && (
                    ok_nd,
                    prio_nd,
                ) == (accepted(res), priority_of(res)) && speller_answer(
                    speller,
                    first_lowered(p1.take(k - 1)),
                    res,
                );
        }
        if ok_nd {
            ok1 = true;
            prio_total = prio_nd;
        }
        proof {
            assert(ok1 ==> 1 <= prio_total <= 2);
            assert(status@ == charged(charged(prev)));
            assert(retry);
        }
    } else {
        proof {
            assert(!retry);
        }
    }
    let ghost mut r3 = SpellResult::Failed;
    let ghost s2 = status@;
    let ghost p1b = part1@;
    proof {
        assert(s2 == if retry {
            charged(charged(prev))
        } else {
            charged(prev)
        });
        assert(p1b == if retry {
            spell_ok_word(p1.take(k - 1), r2) + p1.skip(k - 1)
        } else {
            p1
        });
        assert(ok1 == (accepted(r1) || (retry && accepted(r2))));
        assert(ok1 ==> prio_total == if accepted(r1) {
            priority_of(r1)
        } else {
            priority_of(r2)
        });
    }
    if ok1 {
        let w2start = splitind + strip;
        let mut part2: Vec<char> = Vec::new();
        let mut q: usize = w2start;
        while q < wlen
            invariant
                wlen == word@.len(),
                w2start <= q <= wlen,
                part2@ == word@.subrange(w2start as int, q as int),
            decreases wlen - q,
        {
            part2.push(word[q]);
            q += 1;
            proof {
                assert(part2@ =~= word@.subrange(w2start as int, q as int));
            }
        }
        proof {
            assert(part2@ =~= word@.skip(w2start as int));
        }
        let ghost p2_0 = part2@;
        let n2 = part2.len();
        let (ok2, prio_part) = SplitWord::spell_ok(speller, status, &mut part2, n2);
        proof {
            r3 = choose|res: SpellResult|
                #![trigger spell_ok_word(p2_0.take(n2 as int), res)]
                part2@ == spell_ok_word(p2_0.take(n2 as int), res) + p2_0.skip(n2 as int)
                    && (ok2, prio_part) == (accepted(res), priority_of(res)) && speller_answer(
                    speller,
                    first_lowered(p2_0.take(n2 as int)),
                    res,
                );
            assert(p2_0.take(n2 as int) =~= p2_0);
            assert(p2_0.skip(n2 as int) =~= Seq::<char>::empty());
            assert(part2@ =~= spell_ok_word(word@.skip(w2start as int), r3));
        }
        if ok2 {
            proof {
                assert(1 <= prio_part <= 2);
                assert(ok1);
                assert(1 <= prio_total <= 2);
            }
            let sum: i32 = prio_total + prio_part;
            let combined: i32 = if strip == 1 { sum * 6 } else { sum };
            let mut sugg: Vec<char> = Vec::new();
            let mut q: usize = 0;
            while q < splitind
                invariant
                    splitind <= part1@.len(),
                    q <= splitind,
                    sugg@ == part1@.take(q as int),
                decreases splitind - q,
            {
                sugg.push(part1[q]);
                q += 1;
                proof {
                    assert(sugg@ =~= part1@.take(q as int));
                }
            }
            sugg.push(' ');
            let mut q: usize = 0;
            while q < part2.len()
                invariant
                    q <= part2@.len(),
                    sugg@ == part1@.take(splitind as int).push(' ') + part2@.take(q as int),
                decreases part2.len() - q,
            {
                sugg.push(part2[q]);
                q += 1;
                proof {
                    assert(sugg@ =~= part1@.take(splitind as int).push(' ') + part2@.take(
                        q as int,
                    ));
                }
            }
            proof {
                assert(part1@.len() == k);
                assert(part1@.take(k) =~= part1@);
                assert(part2@.take(part2@.len() as int) =~= part2@);
                assert(sugg@ =~= part1@ + seq![' '] + part2@);
            }
            let text = prefix_to_string(sugg.as_slice(), sugg.len());
            proof {
                assert(sugg@.take(sugg@.len() as int) =~= sugg@);
            }
            status.add_suggestion(text, combined);
            proof {
                assert(status@ == split_step(prev, word@, k, r1, r2, r3));
            }
        } else {
            proof {
                assert(status@ == split_step(prev, word@, k, r1, r2, r3));
            }
        }
    } else {
        proof {
            assert(status@ == split_step(prev, word@, k, r1, r2, r3));
        }
    }
}

impl SuggestionGenerator for SplitWord {
    fn generate<S: Speller>(&self, speller: &S, status: &mut SuggestionStatus<'_>)
        ensures
            split_word_reaches(speller, old(status)@, final(status)@),
    {
        let ghost v = status@;
        let word = status.word();
        let wlen = status.word_len();
        if wlen < 4 {
            proof {
                lemma_extends_refl(v);
            }
            return;
        }
        let ghost top = (wlen - 2) as int;
        proof {
            lemma_extends_refl(v);
        }
        let mut splitind: usize = wlen - 2;
        while splitind >= 2
            invariant_except_break
                forall|x: StatusView|
                    #[trigger] split_reaches(speller, status@, word@, splitind as int, x) ==> split_reaches(speller, 
                        v,
                        word@,
                        top,
                        x,
                    ),
                splitind < 2 ==> split_reaches(speller, v, word@, top, status@),
            invariant
                old(status)@ == v,
                word@ == v.word,
                wlen == word@.len(),
                wlen >= 4,
                splitind <= wlen - 2,
                top == wlen - 2,
                extends(v, status@),
            ensures
                extends(v, status@),
                split_reaches(speller, v, word@, top, status@),
            decreases splitind,
        {
            let ghost prev = status@;
            let ghost k = splitind as int;
            if word[splitind - 2] == '-' || word[splitind - 1] == '-' || (splitind + 1 < wlen
                && word[splitind + 1] == '-') {
                proof {
                    assert forall|x: StatusView| #[trigger]
                        split_reaches(speller, status@, word@, k - 1, x) implies split_reaches(speller, 
                        v,
                        word@,
                        top,
                        x,
                    ) by {
                        lemma_split_reaches_skip(speller, status@, word@, k, x);
                    }
                    if k - 1 < 2 {
                        assert(split_reaches(speller, status@, word@, k - 1, status@));
                    }
                }
                splitind -= 1;
                continue;
            }
            try_split(speller, status, word, splitind);
            let ghost (r1, r2, r3) = choose|r1: SpellResult, r2: SpellResult, r3: SpellResult|
                #![trigger split_step(prev, word@, k, r1, r2, r3)]
                status@ == split_step(prev, word@, k, r1, r2, r3) && split_answers(speller, word@, k, r1, r2, r3);
            proof {
                lemma_split_step_extends(prev, word@, k, r1, r2, r3);
                lemma_extends_trans(v, prev, status@);
            }
            if status.should_abort() {
                proof {
                    lemma_split_reaches_step(speller, prev, word@, k, r1, r2, r3, status@);
                }
                break;
            }
            proof {
                assert forall|x: StatusView| #[trigger]
                    split_reaches(speller, status@, word@, k - 1, x) implies split_reaches(speller, 
                    v,
                    word@,
                    top,
                    x,
                ) by {
                    lemma_split_reaches_step(speller, prev, word@, k, r1, r2, r3, x);
                }
                if k - 1 < 2 {
                    assert(split_reaches(speller, status@, word@, k - 1, status@));
                }
            }
            splitind -= 1;
        }
    }
}

} // verus!
