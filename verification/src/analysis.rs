//! Morphological analysis result: a set of attribute key/value pairs.

use vstd::prelude::*;
use crate::text::str_eq;

verus! {

pub const ATTR_BASEFORM: &'static str = "BASEFORM";
pub const ATTR_CLASS: &'static str = "CLASS";
pub const ATTR_COMPARISON: &'static str = "COMPARISON";
pub const ATTR_FOCUS: &'static str = "FOCUS";
pub const ATTR_FSTOUTPUT: &'static str = "FSTOUTPUT";
pub const ATTR_KYSYMYSLIITE: &'static str = "KYSYMYSLIITE";
pub const ATTR_MALAGA_VAPAA_JALKIOSA: &'static str = "MALAGA_VAPAA_JALKIOSA";
pub const ATTR_MOOD: &'static str = "MOOD";
pub const ATTR_NEGATIVE: &'static str = "NEGATIVE";
pub const ATTR_NUMBER: &'static str = "NUMBER";
pub const ATTR_PARTICIPLE: &'static str = "PARTICIPLE";
pub const ATTR_PERSON: &'static str = "PERSON";
pub const ATTR_POSSESSIVE: &'static str = "POSSESSIVE";
pub const ATTR_POSSIBLE_GEOGRAPHICAL_NAME: &'static str = "POSSIBLE_GEOGRAPHICAL_NAME";
pub const ATTR_REQUIRE_FOLLOWING_VERB: &'static str = "REQUIRE_FOLLOWING_VERB";
pub const ATTR_SIJAMUOTO: &'static str = "SIJAMUOTO";
pub const ATTR_STRUCTURE: &'static str = "STRUCTURE";
pub const ATTR_TENSE: &'static str = "TENSE";
pub const ATTR_WEIGHT: &'static str = "WEIGHT";
pub const ATTR_WORDBASES: &'static str = "WORDBASES";
pub const ATTR_WORDIDS: &'static str = "WORDIDS";

/// The key/value pairs of a list of string pairs, as character sequences.
pub open spec fn pairs_of(s: Seq<(String, String)>) -> Seq<(Seq<char>, Seq<char>)> {
    s.map_values(|p: (String, String)| (p.0@, p.1@))
}

/// The map that a list of pairs denotes; a later pair wins over an earlier
/// one with the same key.
pub open spec fn map_of(s: Seq<(Seq<char>, Seq<char>)>) -> Map<Seq<char>, Seq<char>>
    decreases s.len(),
{
    if s.len() == 0 {
        Map::empty()
    } else {
        map_of(s.drop_last()).insert(s.last().0, s.last().1)
    }
}

/// No key occurs twice.
pub open spec fn keys_distinct(s: Seq<(Seq<char>, Seq<char>)>) -> bool {
    forall|i: int, j: int| 0 <= i < j < s.len() ==> #[trigger] s[i].0 != #[trigger] s[j].0
}

/// A key is in the map of a list exactly when some pair holds it.
pub proof fn lemma_map_of_dom(s: Seq<(Seq<char>, Seq<char>)>, k: Seq<char>)
    ensures
        map_of(s).contains_key(k) <==> exists|i: int| 0 <= i < s.len() && (#[trigger] s[i]).0 == k,
    decreases s.len(),
{
    if s.len() > 0 {
        lemma_map_of_dom(s.drop_last(), k);
        if exists|i: int| 0 <= i < s.drop_last().len() && (#[trigger] s.drop_last()[i]).0 == k {
            let i = choose|i: int| 0 <= i < s.drop_last().len() && (#[trigger] s.drop_last()[i]).0 == k;
            assert(s[i].0 == k);
        }
        if exists|i: int| 0 <= i < s.len() && (#[trigger] s[i]).0 == k {
            let i = choose|i: int| 0 <= i < s.len() && (#[trigger] s[i]).0 == k;
            if i < s.len() - 1 {
                assert(s.drop_last()[i].0 == k);
            }
        }
    }
}

/// With distinct keys, the map holds each pair's value under its key.
pub proof fn lemma_map_of_value(s: Seq<(Seq<char>, Seq<char>)>, i: int)
    requires
        keys_distinct(s),
        0 <= i < s.len(),
    ensures
        map_of(s).contains_key(s[i].0),
        map_of(s)[s[i].0] == s[i].1,
    decreases s.len(),
{
    if i < s.len() - 1 {
        let t = s.drop_last();
        assert(t[i] == s[i]);
        assert(keys_distinct(t)) by {
            assert forall|a: int, b: int| 0 <= a < b < t.len() implies #[trigger] t[a].0 != #[trigger] t[b].0 by {
                assert(t[a] == s[a] && t[b] == s[b]);
            }
        }
        lemma_map_of_value(t, i);
        assert(s[i].0 != s[s.len() - 1].0);
    }
}

/// With distinct keys, the map has as many entries as the list has pairs.
pub proof fn lemma_map_of_len(s: Seq<(Seq<char>, Seq<char>)>)
    requires
        keys_distinct(s),
    ensures
        map_of(s).dom().finite(),
        map_of(s).len() == s.len(),
    decreases s.len(),
{
    if s.len() > 0 {
        let t = s.drop_last();
        assert(keys_distinct(t)) by {
            assert forall|a: int, b: int| 0 <= a < b < t.len() implies #[trigger] t[a].0 != #[trigger] t[b].0 by {
                assert(t[a] == s[a] && t[b] == s[b]);
            }
        }
        lemma_map_of_len(t);
        lemma_map_of_dom(t, s.last().0);
        if map_of(t).contains_key(s.last().0) {
            let i = choose|i: int| 0 <= i < t.len() && (#[trigger] t[i]).0 == s.last().0;
            assert(t[i] == s[i]);
        }
        assert(map_of(s).dom() =~= map_of(t).dom().insert(s.last().0));
    }
}

/// Result of morphological analysis: a set of key/value attribute pairs,
/// each key at most once.
#[derive(Debug, Eq)]
pub struct Analysis {
    attributes: Vec<(String, String)>,
}

impl Analysis {
    /// The stored pairs as character sequences, in storage order.
    pub closed spec fn pairs(&self) -> Seq<(Seq<char>, Seq<char>)> {
        pairs_of(self.attributes@)
    }

    #[verifier::type_invariant]
    closed spec fn keys_are_distinct(&self) -> bool {
        keys_distinct(self.pairs())
    }
}

impl View for Analysis {
    type V = Map<Seq<char>, Seq<char>>;

    closed spec fn view(&self) -> Map<Seq<char>, Seq<char>> {
        map_of(self.pairs())
    }
}

/// Copy of `s` without the pairs whose key is `key`, in the same order.
fn without_key(s: &Vec<(String, String)>, key: &str) -> (r: Vec<(String, String)>)
    requires
        keys_distinct(pairs_of(s@)),
    ensures
        keys_distinct(pairs_of(r@)),
        map_of(pairs_of(r@)) == map_of(pairs_of(s@)).remove(key@),
        !map_of(pairs_of(r@)).contains_key(key@),
{
    let mut r: Vec<(String, String)> = Vec::new();
    let mut j: usize = 0;
    let ghost ps = pairs_of(s@);
    while j < s.len()
        invariant
            j <= s.len(),
            ps == pairs_of(s@),
            keys_distinct(ps),
            keys_distinct(pairs_of(r@)),
            map_of(pairs_of(r@)) == map_of(ps.take(j as int)).remove(key@),
        decreases s.len() - j,
    {
        let ghost old_r = pairs_of(r@);
        assert(ps.take(j + 1).drop_last() =~= ps.take(j as int));
        assert(ps.take(j + 1).last() == ps[j as int]);
        if !str_eq(s[j].0.as_str(), key) {
            let k = s[j].0.clone();
            let v = s[j].1.clone();
            proof {
                lemma_map_of_dom(ps.take(j as int), ps[j as int].0);
                if map_of(ps.take(j as int)).contains_key(ps[j as int].0) {
                    let i = choose|i: int|
                        0 <= i < ps.take(j as int).len() && (#[trigger] ps.take(j as int)[i]).0
                            == ps[j as int].0;
                    assert(ps.take(j as int)[i] == ps[i]);
                }
                assert forall|m: int| 0 <= m < old_r.len() implies old_r[m].0 != ps[j as int].0 by {
                    lemma_map_of_value(old_r, m);
                }
            }
            r.push((k, v));
            proof {
                assert(pairs_of(r@) =~= old_r.push(ps[j as int]));
                assert(pairs_of(r@).drop_last() =~= old_r);
                assert(map_of(pairs_of(r@)) =~= map_of(ps.take(j + 1)).remove(key@));
            }
        } else {
            proof {
                assert(map_of(pairs_of(r@)) =~= map_of(ps.take(j + 1)).remove(key@));
            }
        }
        j += 1;
    }
    proof {
        assert(ps.take(s.len() as int) =~= ps);
    }
    r
}

impl Analysis {
    /// Create a new empty analysis.
    pub fn new() -> (r: Self)
        ensures
            r@ == Map::<Seq<char>, Seq<char>>::empty(),
            r@.dom().finite(),
    {
        let r = Analysis { attributes: Vec::new() };
        proof {
            assert(r.pairs() =~= Seq::empty());
        }
        r
    }

    /// Set an attribute value, replacing any previous value for the key.
    pub fn set(&mut self, key: &str, value: &str)
        ensures
            final(self)@ == old(self)@.insert(key@, value@),
            old(self)@.dom().finite(),
            final(self)@.dom().finite(),
    {
        proof {
            use_type_invariant(&*self);
            lemma_map_of_len(self.pairs());
        }
        let mut rest = without_key(&self.attributes, key);
        let ghost before = pairs_of(rest@);
        rest.push((String::from_str(key), String::from_str(value)));
        proof {
            assert(pairs_of(rest@) =~= before.push((key@, value@)));
            assert(pairs_of(rest@).drop_last() =~= before);
            assert forall|m: int| 0 <= m < before.len() implies before[m].0 != key@ by {
                lemma_map_of_value(before, m);
            }
            assert(map_of(pairs_of(rest@)) =~= old(self)@.insert(key@, value@));
        }
        self.attributes = rest;
    }

    /// Get an attribute value by key; `None` if it is not present.
    pub fn get(&self, key: &str) -> (r: Option<&str>)
        ensures
            r is Some <==> self@.contains_key(key@),
            r matches Some(v) ==> v@ == self@[key@],
    {
        proof {
            use_type_invariant(self);
        }
        let mut i: usize = 0;
        while i < self.attributes.len()
            invariant
                i <= self.attributes.len(),
                keys_distinct(self.pairs()),
                forall|m: int| 0 <= m < i ==> (#[trigger] self.pairs()[m]).0 != key@,
            decreases self.attributes.len() - i,
        {
            if str_eq(self.attributes[i].0.as_str(), key) {
                proof {
                    lemma_map_of_value(self.pairs(), i as int);
                }
                return Some(self.attributes[i].1.as_str());
            }
            i += 1;
        }
        proof {
            lemma_map_of_dom(self.pairs(), key@);
        }
        None
    }

    /// Remove an attribute by key; nothing happens if it is not present.
    pub fn remove(&mut self, key: &str)
        ensures
            final(self)@ == old(self)@.remove(key@),
            old(self)@.dom().finite(),
            final(self)@.dom().finite(),
    {
        proof {
            use_type_invariant(&*self);
            lemma_map_of_len(self.pairs());
        }
        let rest = without_key(&self.attributes, key);
        self.attributes = rest;
    }

    /// Whether a given attribute key is present.
    pub fn contains_key(&self, key: &str) -> (r: bool)
        ensures
            r == self@.contains_key(key@),
    {
        self.get(key).is_some()
    }

    /// The attribute keys present in this analysis, each once.
    pub fn keys(&self) -> (r: Vec<&str>)
        ensures
            r@.len() == self@.len(),
            forall|i: int| 0 <= i < r@.len() ==> self@.contains_key((#[trigger] r@[i])@),
            forall|k: Seq<char>| #[trigger] self@.contains_key(k) ==> exists|i: int|
                0 <= i < r@.len() && (#[trigger] r@[i])@ == k,
            forall|i: int, j: int| 0 <= i < j < r@.len() ==> (#[trigger] r@[i])@ != (#[trigger] r@[j])@,
    {
        proof {
            use_type_invariant(self);
            lemma_map_of_len(self.pairs());
        }
        let mut r: Vec<&str> = Vec::new();
        let mut i: usize = 0;
        while i < self.attributes.len()
            invariant
                i <= self.attributes.len(),
                keys_distinct(self.pairs()),
                r@.len() == i,
                forall|m: int| 0 <= m < i ==> (#[trigger] r@[m])@ == self.pairs()[m].0,
            decreases self.attributes.len() - i,
        {
            r.push(self.attributes[i].0.as_str());
            i += 1;
        }
        proof {
            assert forall|m: int| 0 <= m < r@.len() implies self@.contains_key((#[trigger] r@[m])@) by {
                lemma_map_of_value(self.pairs(), m);
            }
            assert forall|k: Seq<char>| #[trigger] self@.contains_key(k) implies exists|m: int|
                0 <= m < r@.len() && (#[trigger] r@[m])@ == k by {
                lemma_map_of_dom(self.pairs(), k);
                let m = choose|m: int| 0 <= m < self.pairs().len() && (#[trigger] self.pairs()[m]).0 == k;
                assert(r@[m]@ == k);
            }
            assert forall|a: int, b: int| 0 <= a < b < r@.len() implies (#[trigger] r@[a])@ != (#[trigger] r@[b])@ by {
                assert(self.pairs()[a].0 != self.pairs()[b].0);
            }
        }
        r
    }

    /// The stored key/value pairs, each key once, in storage order.
    pub fn attributes(&self) -> (r: &Vec<(String, String)>)
        ensures
            keys_distinct(pairs_of(r@)),
            map_of(pairs_of(r@)) == self@,
    {
        proof {
            use_type_invariant(self);
        }
        &self.attributes
    }

    /// The number of attributes.
    pub fn len(&self) -> (r: usize)
        ensures
            r == self@.len(),
            self@.dom().finite(),
    {
        proof {
            use_type_invariant(self);
            lemma_map_of_len(self.pairs());
        }
        self.attributes.len()
    }

    /// Whether the analysis has no attributes.
    pub fn is_empty(&self) -> (r: bool)
        ensures
            r == (self@.len() == 0),
    {
        self.len() == 0
    }
}

impl Clone for Analysis {
    /// An independent copy with the same attributes.
    fn clone(&self) -> (r: Self)
        ensures
            r@ == self@,
    {
        proof {
            use_type_invariant(self);
        }
        let mut v: Vec<(String, String)> = Vec::new();
        let mut i: usize = 0;
        while i < self.attributes.len()
            invariant
                i <= self.attributes.len(),
                keys_distinct(self.pairs()),
                pairs_of(v@) == self.pairs().take(i as int),
            decreases self.attributes.len() - i,
        {
            let ghost old_v = v@;
            let k = self.attributes[i].0.clone();
            let w = self.attributes[i].1.clone();
            v.push((k, w));
            proof {
                assert(v@ == old_v.push((k, w)));
                assert(pairs_of(v@) =~= pairs_of(old_v).push((k@, w@)));
                assert(self.pairs()[i as int] == (k@, w@));
                assert(self.pairs().take(i + 1) =~= self.pairs().take(i as int).push((k@, w@)));
            }
            i += 1;
        }
        proof {
            assert(self.pairs().take(i as int) =~= self.pairs());
        }
        Analysis { attributes: v }
    }
}

impl Default for Analysis {
    fn default() -> (r: Self)
        ensures
            r@ == Map::<Seq<char>, Seq<char>>::empty(),
    {
        Self::new()
    }
}

/// Two analyses are equal when they hold the same attributes, whatever
/// the order in which they were set.
impl PartialEq for Analysis {
    fn eq(&self, other: &Self) -> (r: bool) {
        proof {
            use_type_invariant(self);
            use_type_invariant(other);
            lemma_map_of_len(self.pairs());
            lemma_map_of_len(other.pairs());
        }
        if self.attributes.len() != other.attributes.len() {
            return false;
        }
        let ghost ps = self.pairs();
        let mut i: usize = 0;
        while i < self.attributes.len()
            invariant
                i <= self.attributes@.len(),
                ps == self.pairs(),
                keys_distinct(ps),
                self@.dom().finite(),
                other@.dom().finite(),
                self@.len() == other@.len(),
                forall|j: int|
                    0 <= j < i ==> other@.contains_key(#[trigger] ps[j].0) && other@[ps[j].0]
                        == ps[j].1,
            decreases self.attributes.len() - i,
        {
            proof {
                lemma_map_of_value(ps, i as int);
            }
            match other.get(self.attributes[i].0.as_str()) {
                Some(v) => {
                    if !str_eq(v, self.attributes[i].1.as_str()) {
                        return false;
                    }
                },
                None => {
                    return false;
                },
            }
            i += 1;
        }
        proof {
            assert forall|k: Seq<char>| #[trigger] self@.dom().contains(k) implies other@.dom().contains(k)
                && other@[k] == self@[k] by {
                lemma_map_of_dom(ps, k);
                let j = choose|j: int| 0 <= j < ps.len() && (#[trigger] ps[j]).0 == k;
                lemma_map_of_value(ps, j);
            }
            assert(self@.dom().subset_of(other@.dom()));
            assert(self@.dom().len() == other@.dom().len());
            vstd::set_lib::lemma_subset_equality(self@.dom(), other@.dom());
            assert(self@ =~= other@);
        }
        true
    }
}

impl vstd::std_specs::cmp::PartialEqSpecImpl for Analysis {
    open spec fn obeys_eq_spec() -> bool {
        true
    }

    open spec fn eq_spec(&self, other: &Analysis) -> bool {
        self@ == other@
    }
}

/// What `get` gives back of `set` and `remove`: after setting a key, the
/// key holds the value set; after removing it, the key is absent; other
/// keys keep what they held.
pub proof fn lemma_get_after_set_and_remove(
    m: Map<Seq<char>, Seq<char>>,
    key: Seq<char>,
    value: Seq<char>,
    other: Seq<char>,
)
    ensures
        m.insert(key, value).contains_key(key),
        m.insert(key, value)[key] == value,
        !m.remove(key).contains_key(key),
        other != key ==> (m.insert(key, value).contains_key(other) == m.contains_key(other)),
        other != key && m.contains_key(other) ==> m.insert(key, value)[other] == m[other],
        other != key ==> (m.remove(key).contains_key(other) == m.contains_key(other)),
        other != key && m.contains_key(other) ==> m.remove(key)[other] == m[other],
{
}

} // verus!
