//! Cache of the grammar errors found in the last paragraph checked.

use vstd::prelude::*;
use crate::grammar_error::GrammarError;
use crate::text::{chars_eq, chars_to_vec};

verus! {

/// Errors in order of their start position.
pub open spec fn sorted_by_start(s: Seq<GrammarError>) -> bool {
    forall|i: int, j: int| 0 <= i < j < s.len() ==> #[trigger] s[i].start_pos <= #[trigger] s[j].start_pos
}

/// Where an error with start position `key` goes: after the last error,
/// counted from the end, that does not start after it.
pub open spec fn insert_pos(s: Seq<GrammarError>, key: usize) -> int
    decreases s.len(),
{
    if s.len() == 0 {
        0
    } else if s.last().start_pos <= key {
        s.len() as int
    } else {
        insert_pos(s.drop_last(), key)
    }
}

/// The errors with `e` inserted after every error that does not start
/// after it.
pub open spec fn insert_sorted(s: Seq<GrammarError>, e: GrammarError) -> Seq<GrammarError> {
    s.insert(insert_pos(s, e.start_pos), e)
}

/// The errors sorted by start position, errors with equal start positions
/// in the order given.
pub open spec fn sort_by_start(s: Seq<GrammarError>) -> Seq<GrammarError>
    decreases s.len(),
{
    if s.len() == 0 {
        s
    } else {
        insert_sorted(sort_by_start(s.drop_last()), s.last())
    }
}

proof fn lemma_insert_pos_bounds(s: Seq<GrammarError>, key: usize)
    ensures
        0 <= insert_pos(s, key) <= s.len(),
        forall|k: int| insert_pos(s, key) <= k < s.len() ==> (#[trigger] s[k]).start_pos > key,
        insert_pos(s, key) > 0 ==> s[insert_pos(s, key) - 1].start_pos <= key,
    decreases s.len(),
{
    if s.len() > 0 && s.last().start_pos > key {
        lemma_insert_pos_bounds(s.drop_last(), key);
        assert forall|k: int| insert_pos(s, key) <= k < s.len() implies (#[trigger] s[k]).start_pos > key by {
            if k < s.len() - 1 {
                assert(s[k] == s.drop_last()[k]);
            }
        }
    }
}

/// Inserting an error keeps sorted errors sorted; the new error comes
/// after every error with the same start position.
pub proof fn lemma_insert_sorted_keeps_order(s: Seq<GrammarError>, e: GrammarError)
    requires
        sorted_by_start(s),
    ensures
        sorted_by_start(insert_sorted(s, e)),
        insert_sorted(s, e).len() == s.len() + 1,
        forall|k: int| 0 <= k < insert_pos(s, e.start_pos) ==> (#[trigger] s[k]).start_pos <= e.start_pos,
{
    lemma_insert_pos_bounds(s, e.start_pos);
    let p = insert_pos(s, e.start_pos);
    let r = insert_sorted(s, e);
    assert forall|k: int| 0 <= k < p implies (#[trigger] s[k]).start_pos <= e.start_pos by {
        assert(s[k].start_pos <= s[p - 1].start_pos);
    }
    assert forall|i: int, j: int| 0 <= i < j < r.len() implies #[trigger] r[i].start_pos <= #[trigger] r[j].start_pos by {
        if j < p {
            assert(r[i] == s[i] && r[j] == s[j]);
        } else if j == p {
            assert(r[j] == e);
            assert(r[i] == s[i]);
        } else if i < p {
            assert(r[i] == s[i] && r[j] == s[j - 1]);
        } else if i == p {
            assert(r[i] == e && r[j] == s[j - 1]);
        } else {
            assert(r[i] == s[i - 1] && r[j] == s[j - 1]);
        }
    }
}

/// Sorting gives errors in order of their start position, as many as
/// there were.
pub proof fn lemma_sort_by_start_sorted(s: Seq<GrammarError>)
    ensures
        sorted_by_start(sort_by_start(s)),
        sort_by_start(s).len() == s.len(),
    decreases s.len(),
{
    if s.len() > 0 {
        lemma_sort_by_start_sorted(s.drop_last());
        lemma_insert_sorted_keeps_order(sort_by_start(s.drop_last()), s.last());
    }
}

/// Sorting keeps every error: the sorted list holds the same errors, each
/// as many times.
pub proof fn lemma_sort_by_start_same_errors(s: Seq<GrammarError>)
    ensures
        sort_by_start(s).to_multiset() == s.to_multiset(),
    decreases s.len(),
{
    broadcast use vstd::seq_lib::group_to_multiset_ensures;
    if s.len() > 0 {
        let d = s.drop_last();
        lemma_sort_by_start_same_errors(d);
        let t = sort_by_start(d);
        lemma_insert_pos_bounds(t, s.last().start_pos);
        let p = insert_pos(t, s.last().start_pos);
        vstd::seq_lib::to_multiset_insert(t, p, s.last());
        assert(s =~= d.push(s.last()));
    }
}

/// How many of the errors do not start after `key`.
pub open spec fn count_starting_by(s: Seq<GrammarError>, key: usize) -> int
    decreases s.len(),
{
    if s.len() == 0 {
        0
    } else {
        count_starting_by(s.drop_last(), key) + if s.last().start_pos <= key {
            1int
        } else {
            0
        }
    }
}

/// The errors that start at `key`, in their order.
pub open spec fn starting_at(s: Seq<GrammarError>, key: usize) -> Seq<GrammarError>
    decreases s.len(),
{
    if s.len() == 0 {
        s
    } else {
        starting_at(s.drop_last(), key) + if s.last().start_pos == key {
            seq![s.last()]
        } else {
            Seq::empty()
        }
    }
}

proof fn lemma_count_all(s: Seq<GrammarError>, key: usize)
    requires
        forall|k: int| 0 <= k < s.len() ==> (#[trigger] s[k]).start_pos <= key,
    ensures
        count_starting_by(s, key) == s.len(),
    decreases s.len(),
{
    if s.len() > 0 {
        assert forall|k: int| 0 <= k < s.drop_last().len() implies (#[trigger] s.drop_last()[k]).start_pos
            <= key by {
            assert(s.drop_last()[k] == s[k]);
        }
        lemma_count_all(s.drop_last(), key);
    }
}

/// In sorted errors, a new error goes after exactly those that do not
/// start after it: its position is their number.
pub proof fn lemma_insert_pos_is_count(s: Seq<GrammarError>, key: usize)
    requires
        sorted_by_start(s),
    ensures
        insert_pos(s, key) == count_starting_by(s, key),
    decreases s.len(),
{
    if s.len() > 0 {
        let d = s.drop_last();
        assert(sorted_by_start(d)) by {
            assert forall|i: int, j: int| 0 <= i < j < d.len() implies #[trigger] d[i].start_pos
                <= #[trigger] d[j].start_pos by {
                assert(d[i] == s[i] && d[j] == s[j]);
            }
        }
        if s.last().start_pos <= key {
            assert forall|k: int| 0 <= k < d.len() implies (#[trigger] d[k]).start_pos <= key by {
                assert(d[k] == s[k]);
                assert(s[k].start_pos <= s[s.len() - 1].start_pos);
            }
            lemma_count_all(d, key);
        } else {
            lemma_insert_pos_is_count(d, key);
        }
    }
}

proof fn lemma_starting_at_concat(a: Seq<GrammarError>, b: Seq<GrammarError>, key: usize)
    ensures
        starting_at(a + b, key) == starting_at(a, key) + starting_at(b, key),
    decreases b.len(),
{
    if b.len() == 0 {
        assert(a + b =~= a);
        assert(starting_at(a, key) + starting_at(b, key) =~= starting_at(a, key));
    } else {
        lemma_starting_at_concat(a, b.drop_last(), key);
        assert((a + b).drop_last() =~= a + b.drop_last());
        assert((a + b).last() == b.last());
        assert(starting_at(a + b, key) =~= starting_at(a, key) + starting_at(b, key));
    }
}

proof fn lemma_starting_at_none(s: Seq<GrammarError>, key: usize)
    requires
        forall|k: int| 0 <= k < s.len() ==> (#[trigger] s[k]).start_pos != key,
    ensures
        starting_at(s, key) == Seq::<GrammarError>::empty(),
    decreases s.len(),
{
    if s.len() > 0 {
        assert forall|k: int| 0 <= k < s.drop_last().len() implies (#[trigger] s.drop_last()[k]).start_pos
            != key by {
            assert(s.drop_last()[k] == s[k]);
        }
        lemma_starting_at_none(s.drop_last(), key);
    }
}

/// Inserting an error into sorted errors puts it after every error with
/// the same start position, and leaves the others of each start position
/// in their order.
proof fn lemma_starting_at_insert(t: Seq<GrammarError>, e: GrammarError, key: usize)
    requires
        sorted_by_start(t),
    ensures
        starting_at(insert_sorted(t, e), key) == starting_at(t, key) + if e.start_pos == key {
            seq![e]
        } else {
            Seq::empty()
        },
{
    lemma_insert_pos_bounds(t, e.start_pos);
    let p = insert_pos(t, e.start_pos);
    let pre = t.take(p);
    let post = t.skip(p);
    assert(t =~= pre + post);
    assert(insert_sorted(t, e) =~= pre + seq![e] + post);
    lemma_starting_at_concat(pre + seq![e], post, key);
    lemma_starting_at_concat(pre, seq![e], key);
    lemma_starting_at_concat(pre, post, key);
    assert(seq![e].drop_last() =~= Seq::<GrammarError>::empty());
    assert(seq![e].last() == e);
    assert(starting_at(Seq::<GrammarError>::empty(), key) == Seq::<GrammarError>::empty());
    assert(starting_at(seq![e], key) =~= (if e.start_pos == key {
        seq![e]
    } else {
        Seq::empty()
    }));
    if e.start_pos == key {
        assert forall|k: int| 0 <= k < post.len() implies (#[trigger] post[k]).start_pos != key by {
            assert(post[k] == t[p + k]);
        }
        lemma_starting_at_none(post, key);
        assert(starting_at(insert_sorted(t, e), key) =~= starting_at(t, key) + seq![e]);
    } else {
        assert(starting_at(insert_sorted(t, e), key) =~= starting_at(t, key));
    }
}

/// Sorting by start position is stable: for every start position, the
/// errors that start there come out in the order they went in.
pub proof fn lemma_sort_by_start_stable(s: Seq<GrammarError>, key: usize)
    ensures
        starting_at(sort_by_start(s), key) == starting_at(s, key),
    decreases s.len(),
{
    if s.len() > 0 {
        lemma_sort_by_start_stable(s.drop_last(), key);
        lemma_sort_by_start_sorted(s.drop_last());
        lemma_starting_at_insert(sort_by_start(s.drop_last()), s.last(), key);
    }
}

/// What the cache answers for a paragraph: the stored errors when the
/// paragraph is the stored one, nothing otherwise.
pub open spec fn cached_errors(
    stored: Option<Seq<char>>,
    errors: Seq<GrammarError>,
    text: Seq<char>,
) -> Option<Seq<GrammarError>> {
    if stored == Some(text) {
        Some(errors)
    } else {
        None
    }
}

/// The grammar errors of the last paragraph checked, sorted by start
/// position.
pub struct GcCache {
    paragraph: Option<Vec<char>>,
    errors: Vec<GrammarError>,
}

impl GcCache {
    /// The stored paragraph, if any.
    pub closed spec fn paragraph_view(&self) -> Option<Seq<char>> {
        match self.paragraph {
            Some(p) => Some(p@),
            None => None,
        }
    }

    /// The stored errors.
    pub closed spec fn errors_view(&self) -> Seq<GrammarError> {
        self.errors@
    }

    #[verifier::type_invariant]
    spec fn errors_sorted(&self) -> bool {
        sorted_by_start(self.errors@)
    }

    /// An empty cache.
    pub fn new() -> (r: Self)
        ensures
            r.paragraph_view() is None,
            r.errors_view().len() == 0,
    {
        GcCache { paragraph: None, errors: Vec::new() }
    }

    /// Forget the stored paragraph and its errors.
    pub fn clear(&mut self)
        ensures
            final(self).paragraph_view() is None,
            final(self).errors_view().len() == 0,
    {
        self.errors = Vec::new();
        self.paragraph = None;
    }

    /// The stored errors when `text` is the stored paragraph.
    pub fn check_cache(&self, text: &[char]) -> (r: Option<&[GrammarError]>)
        ensures
            r is Some <==> cached_errors(self.paragraph_view(), self.errors_view(), text@) is Some,
            r matches Some(v) ==> v@ == self.errors_view() && sorted_by_start(v@),
    {
        proof {
            use_type_invariant(self);
        }
        match &self.paragraph {
            Some(cached) => {
                if chars_eq(cached.as_slice(), text) {
                    Some(self.errors.as_slice())
                } else {
                    None
                }
            },
            None => None,
        }
    }

    /// Position at which an error with start position `key` goes.
    fn find_insert_pos(errors: &Vec<GrammarError>, key: usize) -> (r: usize)
        ensures
            r == insert_pos(errors@, key),
    {
        let mut i: usize = errors.len();
        assert(errors@.take(i as int) =~= errors@);
        while i > 0 && errors[i - 1].start_pos > key
            invariant
                i <= errors@.len(),
                insert_pos(errors@.take(i as int), key) == insert_pos(errors@, key),
            decreases i,
        {
            proof {
                assert(errors@.take(i as int).drop_last() =~= errors@.take(i - 1));
            }
            i -= 1;
        }
        proof {
            if i > 0 {
                assert(errors@.take(i as int).last() == errors@[i - 1]);
            }
        }
        i
    }

    /// Store a paragraph and its errors, replacing what was stored; the
    /// errors are kept sorted by start position, equal ones in their order.
    pub fn store_cache(&mut self, text: &[char], errors: Vec<GrammarError>)
        ensures
            final(self).paragraph_view() == Some(text@),
            final(self).errors_view() == sort_by_start(errors@),
            sorted_by_start(final(self).errors_view()),
            final(self).errors_view().to_multiset() == errors@.to_multiset(),
            forall|key: usize| #[trigger] starting_at(final(self).errors_view(), key) == starting_at(
                errors@,
                key,
            ),
    {
        let ghost orig = errors@;
        proof {
            lemma_sort_by_start_same_errors(orig);
            assert forall|key: usize| #[trigger] starting_at(sort_by_start(orig), key) == starting_at(
                orig,
                key,
            ) by {
                lemma_sort_by_start_stable(orig, key);
            }
        }
        let n = errors.len();
        let mut rest = errors;
        let mut sorted: Vec<GrammarError> = Vec::new();
        let mut k: usize = 0;
        while rest.len() > 0
            invariant
                k <= orig.len(),
                n == orig.len(),
                rest@ == orig.skip(k as int),
                sorted@ == sort_by_start(orig.take(k as int)),
                sorted_by_start(sorted@),
            decreases rest.len(),
        {
            let e = rest.remove(0);
            let p = Self::find_insert_pos(&sorted, e.start_pos);
            proof {
                lemma_insert_sorted_keeps_order(sorted@, e);
                assert(orig.take(k + 1).drop_last() =~= orig.take(k as int));
                assert(orig.take(k + 1).last() == e);
            }
            sorted.insert(p, e);
            k += 1;
            proof {
                assert(rest@ =~= orig.skip(k as int));
            }
        }
        proof {
            assert(orig.take(k as int) =~= orig);
        }
        self.errors = sorted;
        self.paragraph = Some(chars_to_vec(text));
    }

    /// Add one error to the stored ones, after every stored error that
    /// does not start after it.
    pub fn append_error(&mut self, error: GrammarError)
        ensures
            final(self).paragraph_view() == old(self).paragraph_view(),
            final(self).errors_view() == insert_sorted(old(self).errors_view(), error),
            final(self).errors_view() == old(self).errors_view().insert(
                count_starting_by(old(self).errors_view(), error.start_pos),
                error,
            ),
            sorted_by_start(final(self).errors_view()),
    {
        proof {
            use_type_invariant(&*self);
            lemma_insert_pos_is_count(self.errors@, error.start_pos);
        }
        let mut errors: Vec<GrammarError> = Vec::new();
        std::mem::swap(&mut errors, &mut self.errors);
        let p = Self::find_insert_pos(&errors, error.start_pos);
        proof {
            lemma_insert_sorted_keeps_order(errors@, error);
        }
        errors.insert(p, error);
        self.errors = errors;
    }

    /// Number of stored errors.
    pub fn error_count(&self) -> (r: usize)
        ensures
            r == self.errors_view().len(),
    {
        self.errors.len()
    }

    /// Whether no paragraph is stored.
    pub fn is_empty(&self) -> (r: bool)
        ensures
            r == (self.paragraph_view() is None),
    {
        self.paragraph.is_none()
    }
}

/// What is stored is found again: after storing a paragraph with its
/// errors, asking for that paragraph gives the errors sorted by start
/// position, and asking for another paragraph gives nothing.
pub proof fn lemma_store_then_check(text: Seq<char>, other: Seq<char>, errors: Seq<GrammarError>)
    ensures
        cached_errors(Some(text), sort_by_start(errors), text) == Some(sort_by_start(errors)),
        other != text ==> cached_errors(Some(text), sort_by_start(errors), other) is None,
{
}

} // verus!
