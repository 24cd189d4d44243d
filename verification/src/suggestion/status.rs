//! The state of one suggestion search: the misspelled word, the limits on
//! work and results, the work done so far and the suggestions found.

use vstd::prelude::*;
use crate::text::str_eq;

verus! {

/// A suggested correction with its priority (lower is better).
pub struct Suggestion {
    pub word: String,
    pub priority: i32,
}

/// A suggestion and its priority as plain values.
pub open spec fn suggestion_view(s: Suggestion) -> (Seq<char>, i32) {
    (s.word@, s.priority)
}

/// The suggestions of a list as plain values, in order.
pub open spec fn suggestions_view(v: Seq<Suggestion>) -> Seq<(Seq<char>, i32)> {
    v.map_values(|s: Suggestion| suggestion_view(s))
}

/// The state of a suggestion search as plain values.
pub struct StatusView {
    /// The word that suggestions are searched for.
    pub word: Seq<char>,
    /// How many suggestions are collected at most.
    pub max_suggestions: nat,
    /// How many speller calls may be charged before the search stops.
    pub max_cost: nat,
    /// The speller calls charged so far.
    pub cost: nat,
    /// The suggestions found so far, in the order they were found.
    pub found: Seq<(Seq<char>, i32)>,
}

/// Whether the search is over: enough suggestions were found, or the
/// work budget is spent.
pub open spec fn aborted(v: StatusView) -> bool {
    v.found.len() >= v.max_suggestions || v.cost >= v.max_cost
}

/// Whether `w` is already among the suggestions found.
pub open spec fn already_found(v: StatusView, w: Seq<char>) -> bool {
    exists|k: int| 0 <= k < v.found.len() && #[trigger] v.found[k].0 == w
}

/// The state after offering suggestion `w` with priority `p`: it is kept
/// when there is room for it and it was not found before.
pub open spec fn add_found(v: StatusView, w: Seq<char>, p: i32) -> StatusView {
    if v.found.len() < v.max_suggestions && !already_found(v, w) {
        StatusView { found: v.found.push((w, p)), ..v }
    } else {
        v
    }
}

/// The state after charging one speller call.
pub open spec fn charged(v: StatusView) -> StatusView {
    StatusView { cost: if v.cost < usize::MAX { v.cost + 1 } else { v.cost }, ..v }
}

/// Whether `after` continues the search `before`: the same word and
/// limits, no less work charged, and the earlier suggestions kept in
/// front.
pub open spec fn extends(before: StatusView, after: StatusView) -> bool {
    &&& after.word == before.word
    &&& after.max_suggestions == before.max_suggestions
    &&& after.max_cost == before.max_cost
    &&& after.cost >= before.cost
    &&& before.found.len() <= after.found.len()
    &&& after.found.take(before.found.len() as int) == before.found
    &&& (before.found.len() <= before.max_suggestions ==> after.found.len()
        <= after.max_suggestions)
}

/// The search state for one misspelled word.
pub struct SuggestionStatus<'a> {
    word: &'a [char],
    max_suggestions: usize,
    max_cost: usize,
    cost: usize,
    suggestions: Vec<Suggestion>,
}

impl<'a> View for SuggestionStatus<'a> {
    type V = StatusView;

    closed spec fn view(&self) -> StatusView {
        StatusView {
            word: self.word@,
            max_suggestions: self.max_suggestions as nat,
            max_cost: self.max_cost as nat,
            cost: self.cost as nat,
            found: suggestions_view(self.suggestions@),
        }
    }
}

impl<'a> SuggestionStatus<'a> {
    /// A new search for `word` that collects at most `max_suggestions`
    /// suggestions. The work budget starts at zero; `set_max_cost` sets it.
    pub fn new(word: &'a [char], max_suggestions: usize) -> (r: Self)
        ensures
            r@ == (StatusView {
                word: word@,
                max_suggestions: max_suggestions as nat,
                max_cost: 0,
                cost: 0,
                found: Seq::empty(),
            }),
    {
        let r = SuggestionStatus {
            word,
            max_suggestions,
            max_cost: 0,
            cost: 0,
            suggestions: Vec::new(),
        };
        proof {
            assert(suggestions_view(r.suggestions@) =~= Seq::<(Seq<char>, i32)>::empty());
        }
        r
    }

    /// Sets the number of speller calls that may be charged.
    pub fn set_max_cost(&mut self, max_cost: usize)
        ensures
            final(self)@ == (StatusView { max_cost: max_cost as nat, ..old(self)@ }),
    {
        self.max_cost = max_cost;
    }

    /// Charges one speller call.
    pub fn charge(&mut self)
        ensures
            final(self)@ == charged(old(self)@),
    {
        if self.cost < usize::MAX {
            self.cost = self.cost + 1;
        }
    }

    /// Whether the search should stop.
    pub fn should_abort(&self) -> (r: bool)
        ensures
            r == aborted(self@),
    {
        self.suggestions.len() >= self.max_suggestions || self.cost >= self.max_cost
    }

    /// Offers a suggestion: it is kept when fewer than the maximum number
    /// were found and the same word was not found before.
    pub fn add_suggestion(&mut self, word: String, priority: i32)
        ensures
            final(self)@ == add_found(old(self)@, word@, priority),
    {
        if self.suggestions.len() >= self.max_suggestions {
            return;
        }
        let n = self.suggestions.len();
        let mut k: usize = 0;
        while k < n
            invariant
                n == self.suggestions@.len(),
                k <= n,
                self@ == old(self)@,
                forall|j: int| 0 <= j < k ==> self@.found[j].0 != word@,
            decreases n - k,
        {
            if str_eq(self.suggestions[k].word.as_str(), word.as_str()) {
                proof {
                    assert(self@.found[k as int].0 == word@);
                }
                return;
            }
            k += 1;
        }
        let ghost before = self.suggestions@;
        self.suggestions.push(Suggestion { word, priority });
        proof {
            assert(suggestions_view(self.suggestions@) =~= suggestions_view(before).push(
                (word@, priority),
            ));
        }
    }

    /// How many suggestions were found.
    pub fn suggestion_count(&self) -> (r: usize)
        ensures
            r == self@.found.len(),
    {
        self.suggestions.len()
    }

    /// The suggestions found, in the order they were found.
    pub fn suggestions(&self) -> (r: &Vec<Suggestion>)
        ensures
            suggestions_view(r@) == self@.found,
    {
        &self.suggestions
    }

    /// The word that suggestions are searched for.
    pub fn word(&self) -> (r: &'a [char])
        ensures
            r@ == self@.word,
    {
        self.word
    }

    /// The length of the word, in characters.
    pub fn word_len(&self) -> (r: usize)
        ensures
            r == self@.word.len(),
    {
        self.word.len()
    }
}

} // verus!
