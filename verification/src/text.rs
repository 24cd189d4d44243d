//! Conversions between strings and character sequences.

use vstd::prelude::*;

verus! {

/// The characters of a string slice, in order.
pub fn str_to_chars(s: &str) -> (r: Vec<char>)
    ensures
        r@ == s@,
{
    let n = s.unicode_len();
    let mut r: Vec<char> = Vec::new();
    let mut i: usize = 0;
    while i < n
        invariant
            n == s@.len(),
            i <= n,
            r@ == s@.take(i as int),
        decreases n - i,
    {
        r.push(s.get_char(i));
        i += 1;
        proof {
            assert(r@ =~= s@.take(i as int));
        }
    }
    proof {
        assert(s@.take(n as int) =~= s@);
    }
    r
}

/// Appends one character with std's `String::push`, which is documented to
/// append the given `char` to the end of the string.
#[verifier::external_body]
fn push_char(s: &mut String, c: char)
    ensures
        final(s)@ == old(s)@.push(c),
{
    s.push(c);
}

/// Builds a `String` holding the given characters, in order.
pub(crate) fn chars_to_string(v: &[char]) -> (r: String)
    ensures
        r@ == v@,
{
    let s = prefix_to_string(v, v.len());
    proof {
        assert(v@.take(v@.len() as int) =~= v@);
    }
    s
}

/// Builds a `String` holding the first `n` characters of `v`, in order.
pub(crate) fn prefix_to_string(v: &[char], n: usize) -> (r: String)
    requires
        n <= v@.len(),
    ensures
        r@ == v@.take(n as int),
{
    let mut s = String::new();
    let mut i: usize = 0;
    while i < n
        invariant
            n <= v@.len(),
            i <= n,
            s@ == v@.take(i as int),
        decreases n - i,
    {
        push_char(&mut s, v[i]);
        i += 1;
        proof {
            assert(s@ =~= v@.take(i as int));
        }
    }
    s
}

/// Whether two string slices hold the same characters.
pub fn str_eq(a: &str, b: &str) -> (r: bool)
    ensures
        r == (a@ == b@),
{
    let n = a.unicode_len();
    if n != b.unicode_len() {
        return false;
    }
    let mut i: usize = 0;
    while i < n
        invariant
            n == a@.len(),
            n == b@.len(),
            i <= n,
            forall|k: int| 0 <= k < i ==> a@[k] == b@[k],
        decreases n - i,
    {
        if a.get_char(i) != b.get_char(i) {
            return false;
        }
        i += 1;
    }
    proof {
        assert(a@ =~= b@);
    }
    true
}

/// Whether a character slice holds the same characters as a string slice.
pub fn chars_eq_str(a: &[char], b: &str) -> (r: bool)
    ensures
        r == (a@ == b@),
{
    let n = b.unicode_len();
    if n != a.len() {
        return false;
    }
    let mut i: usize = 0;
    while i < n
        invariant
            n == a@.len(),
            n == b@.len(),
            i <= n,
            forall|k: int| 0 <= k < i ==> a@[k] == b@[k],
        decreases n - i,
    {
        if a[i] != b.get_char(i) {
            return false;
        }
        i += 1;
    }
    proof {
        assert(a@ =~= b@);
    }
    true
}

/// Whether two character slices are equal.
pub fn chars_eq(a: &[char], b: &[char]) -> (r: bool)
    ensures
        r == (a@ == b@),
{
    if a.len() != b.len() {
        return false;
    }
    let mut i: usize = 0;
    while i < a.len()
        invariant
            a.len() == b.len(),
            i <= a.len(),
            forall|k: int| 0 <= k < i ==> a@[k] == b@[k],
        decreases a.len() - i,
    {
        if a[i] != b[i] {
            return false;
        }
        i += 1;
    }
    proof {
        assert(a@ =~= b@);
    }
    true
}

/// A copy of a character slice as a vector.
pub fn chars_to_vec(a: &[char]) -> (r: Vec<char>)
    ensures
        r@ == a@,
{
    let mut r: Vec<char> = Vec::new();
    let mut i: usize = 0;
    while i < a.len()
        invariant
            i <= a.len(),
            r@ == a@.take(i as int),
        decreases a.len() - i,
    {
        r.push(a[i]);
        i += 1;
        proof {
            assert(r@ =~= a@.take(i as int));
        }
    }
    proof {
        assert(a@.take(a.len() as int) =~= a@);
    }
    r
}

/// The text starts with the prefix.
pub open spec fn has_prefix(t: Seq<char>, p: Seq<char>) -> bool {
    t.len() >= p.len() && t.take(p.len() as int) == p
}

/// Whether the characters start with the prefix.
pub fn chars_start_with(text: &[char], prefix: &str) -> (r: bool)
    ensures
        r == has_prefix(text@, prefix@),
{
    let n = prefix.unicode_len();
    if text.len() < n {
        return false;
    }
    let mut k: usize = 0;
    while k < n
        invariant
            n == prefix@.len(),
            n <= text@.len(),
            k <= n,
            forall|m: int| 0 <= m < k ==> text@[m] == prefix@[m],
        decreases n - k,
    {
        if text[k] != prefix.get_char(k) {
            assert(text@.take(n as int)[k as int] != prefix@[k as int]);
            return false;
        }
        k += 1;
    }
    assert(text@.take(n as int) =~= prefix@);
    true
}

/// The soft hyphen, U+00AD.
pub const SOFT_HYPHEN: char = '\u{AD}';

/// The characters of `s` other than soft hyphens, in order.
pub open spec fn without_soft_hyphens(s: Seq<char>) -> Seq<char>
    decreases s.len(),
{
    if s.len() == 0 {
        s
    } else if s.last() == SOFT_HYPHEN {
        without_soft_hyphens(s.drop_last())
    } else {
        without_soft_hyphens(s.drop_last()).push(s.last())
    }
}

/// Text without soft hyphens holds no soft hyphen, and every other
/// character stays.
pub proof fn lemma_without_soft_hyphens(s: Seq<char>)
    ensures
        forall|i: int| 0 <= i < without_soft_hyphens(s).len() ==> #[trigger] without_soft_hyphens(s)[i] != SOFT_HYPHEN,
        without_soft_hyphens(s).len() <= s.len(),
        (forall|i: int| 0 <= i < s.len() ==> #[trigger] s[i] != SOFT_HYPHEN) ==> without_soft_hyphens(s) == s,
    decreases s.len(),
{
    if s.len() > 0 {
        lemma_without_soft_hyphens(s.drop_last());
        let d = without_soft_hyphens(s.drop_last());
        if s.last() != SOFT_HYPHEN {
            assert forall|i: int| 0 <= i < d.push(s.last()).len() implies #[trigger] d.push(s.last())[i] != SOFT_HYPHEN by {
                if i < d.len() {
                    assert(d.push(s.last())[i] == d[i]);
                }
            }
        }
        if forall|i: int| 0 <= i < s.len() ==> #[trigger] s[i] != SOFT_HYPHEN {
            assert forall|i: int| 0 <= i < s.drop_last().len() implies #[trigger] s.drop_last()[i] != SOFT_HYPHEN by {
                assert(s.drop_last()[i] == s[i]);
            }
            assert(s.last() == s[s.len() - 1]);
            assert(s.drop_last().push(s.last()) =~= s);
        }
    }
}

} // verus!
