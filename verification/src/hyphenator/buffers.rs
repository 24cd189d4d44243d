//! Hyphenation buffers from analyses: compound boundaries from STRUCTURE,
//! pruning of needless compound readings, and merging of several readings.

use vstd::prelude::*;
use vstd::slice::SliceAdditionalExecFns;
use crate::analysis::{Analysis, ATTR_STRUCTURE};
use crate::text::{chars_to_string, str_to_chars};
use crate::hyphenator::rules::{buffer_marks, is_buffer_byte};

verus! {

/// Buffer positions `i..len` as read from a STRUCTURE string at `sptr`:
/// `=` followed by a code marks a compound boundary (`'-'`), `-=` an
/// explicit hyphen (`'='`, not at the start), `j` and `q` forbid
/// hyphenation (`'X'`), other codes leave `' '`.
pub open spec fn interpret_from(st: Seq<char>, sptr: int, i: int, len: int) -> Seq<u8>
    decreases len - i,
{
    if i >= len {
        Seq::empty()
    } else if sptr < 0 || sptr >= st.len() {
        Seq::new((len - i) as nat, |k: int| 32u8)
    } else if st[sptr] == '-' && sptr + 1 < st.len() && st[sptr + 1] == '=' {
        seq![
            if i != 0 {
                61u8
            } else {
                32u8
            },
        ] + interpret_from(st, sptr + 2, i + 1, len)
    } else if st[sptr] == '=' {
        seq![45u8] + interpret_from(st, sptr + 2, i + 1, len)
    } else if st[sptr] == 'j' || st[sptr] == 'q' {
        seq![88u8] + interpret_from(st, sptr + 1, i + 1, len)
    } else {
        seq![32u8] + interpret_from(st, sptr + 1, i + 1, len)
    }
}

/// The first `len` positions of a buffer as given by an analysis's
/// STRUCTURE; the buffer is unchanged when there is none.
pub open spec fn spec_interpret_analysis(a: Map<Seq<char>, Seq<char>>, b: Seq<u8>, len: int) -> Seq<u8> {
    if !a.contains_key(ATTR_STRUCTURE@) {
        b
    } else {
        let st = a[ATTR_STRUCTURE@];
        let start = if st.len() > 0 && st[0] == '=' {
            1int
        } else {
            0int
        };
        interpret_from(st, start, 0, len) + b.skip(len)
    }
}

proof fn lemma_interpret_len(st: Seq<char>, sptr: int, i: int, len: int)
    requires
        0 <= i <= len,
    ensures
        interpret_from(st, sptr, i, len).len() == len - i,
    decreases len - i,
{
    if i < len {
        if 0 <= sptr < st.len() {
            if st[sptr] == '-' && sptr + 1 < st.len() && st[sptr + 1] == '=' {
                lemma_interpret_len(st, sptr + 2, i + 1, len);
            } else if st[sptr] == '=' {
                lemma_interpret_len(st, sptr + 2, i + 1, len);
            } else {
                lemma_interpret_len(st, sptr + 1, i + 1, len);
            }
        }
    }
}

/// Mark compound boundaries from the STRUCTURE attribute of an analysis
/// into the first `len` positions of a buffer.
pub fn interpret_analysis(analysis: &Analysis, buffer: &mut [u8], len: usize)
    requires
        len <= old(buffer)@.len(),
    ensures
        final(buffer)@ == spec_interpret_analysis(analysis@, old(buffer)@, len as int),
        final(buffer)@.len() == old(buffer)@.len(),
{
    let structure = match analysis.get(ATTR_STRUCTURE) {
        Some(s) => s,
        None => {
            return ;
        },
    };
    let st = str_to_chars(structure);
    let mut k: usize = 0;
    while k < len
        invariant
            len <= buffer@.len(),
            buffer@.len() == old(buffer)@.len(),
            k <= len,
            forall|m: int| 0 <= m < k ==> buffer@[m] == 32u8,
            forall|m: int| len <= m < buffer@.len() ==> buffer@[m] == old(buffer)@[m],
        decreases len - k,
    {
        buffer.set(k, 32u8);
        k += 1;
    }
    let mut sptr: usize = 0;
    if st.len() > 0 && st[0] == '=' {
        sptr = 1;
    }
    let ghost target = interpret_from(st@, sptr as int, 0, len as int);
    proof {
        lemma_interpret_len(st@, sptr as int, 0, len as int);
    }
    let mut i: usize = 0;
    while i < len
        invariant
            len <= buffer@.len(),
            buffer@.len() == old(buffer)@.len(),
            i <= len,
            target.len() == len,
            buffer@.take(i as int) + interpret_from(st@, sptr as int, i as int, len as int) == target,
            forall|m: int| i <= m < len ==> buffer@[m] == 32u8,
            forall|m: int| len <= m < buffer@.len() ==> buffer@[m] == old(buffer)@[m],
        ensures
            buffer@.len() == old(buffer)@.len(),
            buffer@.take(len as int) == target,
            forall|m: int| len <= m < buffer@.len() ==> buffer@[m] == old(buffer)@[m],
        decreases len - i,
    {
        proof {
            lemma_interpret_len(st@, sptr as int, i as int, len as int);
        }
        if sptr >= st.len() {
            proof {
                assert(buffer@.take(len as int) =~= buffer@.take(i as int) + interpret_from(
                    st@,
                    sptr as int,
                    i as int,
                    len as int,
                ));
            }
            break;
        }
        let ghost before = buffer@;
        let ghost sp0 = sptr as int;
        if st[sptr] == '-' && sptr + 1 < st.len() && st[sptr + 1] == '=' {
            if i != 0 {
                buffer.set(i, 61u8);
            }
            sptr += 2;
        } else if st[sptr] == '=' {
            buffer.set(i, 45u8);
            sptr = if sptr + 1 < st.len() {
                sptr + 2
            } else {
                st.len()
            };
        } else {
            if st[sptr] == 'j' || st[sptr] == 'q' {
                buffer.set(i, 88u8);
            }
            sptr += 1;
        }
        i += 1;
        proof {
            let fresh = interpret_from(st@, sptr as int, i as int, len as int);
            if sp0 + 2 > st@.len() {
                assert(interpret_from(st@, sp0 + 2, i as int, len as int) =~= fresh);
            }
            assert(interpret_from(st@, sp0, i - 1, len as int) =~= seq![buffer@[i - 1]] + fresh);
            assert(buffer@.take(i as int) =~= before.take(i - 1).push(buffer@[i - 1]));
            assert(buffer@.take(i as int) + fresh =~= before.take(i - 1) + (seq![buffer@[i - 1]]
                + fresh));
        }
    }
    proof {
        assert(buffer@ =~= buffer@.take(len as int) + old(buffer)@.skip(len as int));
        assert(buffer@ =~= spec_interpret_analysis(analysis@, old(buffer)@, len as int));
    }
}


/// The buffers that a list of vectors holds.
pub open spec fn buffers_view(v: Seq<Vec<u8>>) -> Seq<Seq<u8>> {
    v.map_values(|h: Vec<u8>| h@)
}

/// The characters of a buffer.
pub open spec fn bytes_to_chars(b: Seq<u8>) -> Seq<char> {
    Seq::new(b.len(), |i: int| b[i] as char)
}

/// All buffers are at least as long as the first one.
pub open spec fn all_cover_first(hs: Seq<Seq<u8>>) -> bool {
    hs.len() > 0 ==> forall|k: int| 0 <= k < hs.len() ==> (#[trigger] hs[k]).len() >= hs[0].len()
}

/// Some reading after the first leaves position `i` unbroken (`' '` or `'X'`).
pub open spec fn some_rejects(hs: Seq<Seq<u8>>, i: int) -> bool {
    exists|k: int| 1 <= k < hs.len() && (#[trigger] hs[k][i] == 32u8 || hs[k][i] == 88u8)
}

/// Some reading after the first breaks with `'-'` at position `i`.
pub open spec fn some_breaks(hs: Seq<Seq<u8>>, i: int) -> bool {
    exists|k: int| 1 <= k < hs.len() && #[trigger] hs[k][i] == 45u8
}

/// Intersection of readings: the first reading's mark is kept where no
/// reading leaves the position unbroken; `'X'` becomes `' '`.
pub open spec fn spec_intersect(hs: Seq<Seq<u8>>) -> Seq<u8> {
    if hs.len() == 0 {
        Seq::empty()
    } else {
        Seq::new(
            hs[0].len(),
            |i: int|
                if hs[0][i] == 88u8 || some_rejects(hs, i) {
                    32u8
                } else {
                    hs[0][i]
                },
        )
    }
}

/// Union of readings: `'-'` wherever a later reading breaks with `'-'`,
/// otherwise the first reading's mark; `'X'` becomes `' '`.
pub open spec fn spec_union(hs: Seq<Seq<u8>>) -> Seq<u8> {
    if hs.len() == 0 {
        Seq::empty()
    } else {
        Seq::new(
            hs[0].len(),
            |i: int|
                if some_breaks(hs, i) {
                    45u8
                } else if hs[0][i] == 88u8 {
                    32u8
                } else {
                    hs[0][i]
                },
        )
    }
}

pub(crate) fn bytes_to_string(b: &Vec<u8>) -> (r: String)
    ensures
        r@ == bytes_to_chars(b@),
{
    let mut v: Vec<char> = Vec::new();
    let mut i: usize = 0;
    while i < b.len()
        invariant
            i <= b.len(),
            v@ == bytes_to_chars(b@.take(i as int)),
        decreases b.len() - i,
    {
        v.push(b[i] as char);
        i += 1;
        proof {
            assert(v@ =~= bytes_to_chars(b@.take(i as int)));
        }
    }
    proof {
        assert(b@.take(b@.len() as int) =~= b@);
    }
    chars_to_string(v.as_slice())
}

/// Intersection of hyphenation readings (a break only where all agree).
pub fn intersect_hyphenations(hyphenations: &[Vec<u8>]) -> (r: String)
    requires
        all_cover_first(buffers_view(hyphenations@)),
    ensures
        r@ == bytes_to_chars(spec_intersect(buffers_view(hyphenations@))),
{
    let ghost hs = buffers_view(hyphenations@);
    if hyphenations.len() == 0 {
        let e: Vec<u8> = Vec::new();
        let r = bytes_to_string(&e);
        proof {
            assert(bytes_to_chars(e@) =~= bytes_to_chars(spec_intersect(hs)));
        }
        return r;
    }
    let len = hyphenations[0].len();
    let mut result: Vec<u8> = Vec::new();
    let mut i: usize = 0;
    while i < len
        invariant
            hs == buffers_view(hyphenations@),
            hyphenations@.len() > 0,
            len == hs[0].len(),
            all_cover_first(hs),
            i <= len,
            result@ == spec_intersect(hs).take(i as int),
        decreases len - i,
    {
        let mut b = hyphenations[0][i];
        if b == 88u8 {
            b = 32u8;
        }
        let mut k: usize = 1;
        while k < hyphenations.len()
            invariant
                hs == buffers_view(hyphenations@),
                1 <= k <= hyphenations@.len(),
                i < len,
                len == hs[0].len(),
                all_cover_first(hs),
                b == (if hs[0][i as int] == 88u8 || exists|q: int|
                    1 <= q < k && (#[trigger] hs[q][i as int] == 32u8 || hs[q][i as int] == 88u8) {
                    32u8
                } else {
                    hs[0][i as int]
                }),
            decreases hyphenations.len() - k,
        {
            assert(hs[k as int] == hyphenations@[k as int]@);
            assert(hs[k as int].len() >= len);
            let c = hyphenations[k][i];
            if c == 32u8 || c == 88u8 {
                b = 32u8;
            }
            k += 1;
        }
        result.push(b);
        i += 1;
        proof {
            assert(result@ =~= spec_intersect(hs).take(i as int));
        }
    }
    proof {
        assert(result@ =~= spec_intersect(hs));
    }
    bytes_to_string(&result)
}

/// Union of hyphenation readings (a `'-'` break where any reading has one).
pub fn union_hyphenations(hyphenations: &[Vec<u8>]) -> (r: String)
    requires
        all_cover_first(buffers_view(hyphenations@)),
    ensures
        r@ == bytes_to_chars(spec_union(buffers_view(hyphenations@))),
{
    let ghost hs = buffers_view(hyphenations@);
    if hyphenations.len() == 0 {
        let e: Vec<u8> = Vec::new();
        let r = bytes_to_string(&e);
        proof {
            assert(bytes_to_chars(e@) =~= bytes_to_chars(spec_union(hs)));
        }
        return r;
    }
    let len = hyphenations[0].len();
    let mut result: Vec<u8> = Vec::new();
    let mut i: usize = 0;
    while i < len
        invariant
            hs == buffers_view(hyphenations@),
            hyphenations@.len() > 0,
            len == hs[0].len(),
            all_cover_first(hs),
            i <= len,
            result@ == spec_union(hs).take(i as int),
        decreases len - i,
    {
        let mut b = hyphenations[0][i];
        if b == 88u8 {
            b = 32u8;
        }
        let mut k: usize = 1;
        while k < hyphenations.len()
            invariant
                hs == buffers_view(hyphenations@),
                1 <= k <= hyphenations@.len(),
                i < len,
                len == hs[0].len(),
                all_cover_first(hs),
                b == (if exists|q: int| 1 <= q < k && #[trigger] hs[q][i as int] == 45u8 {
                    45u8
                } else if hs[0][i as int] == 88u8 {
                    32u8
                } else {
                    hs[0][i as int]
                }),
            decreases hyphenations.len() - k,
        {
            assert(hs[k as int] == hyphenations@[k as int]@);
            assert(hs[k as int].len() >= len);
            if hyphenations[k][i] == 45u8 {
                b = 45u8;
            }
            k += 1;
        }
        result.push(b);
        i += 1;
        proof {
            assert(result@ =~= spec_union(hs).take(i as int));
        }
    }
    proof {
        assert(result@ =~= spec_union(hs));
    }
    bytes_to_string(&result)
}

/// Every break that the intersection of readings keeps is also in their
/// union: the conservative hyphenation never offers a point that the
/// permissive one lacks.
pub proof fn lemma_intersection_within_union(hs: Seq<Seq<u8>>, i: int)
    requires
        0 <= i < spec_intersect(hs).len(),
        spec_intersect(hs)[i] != 32u8,
    ensures
        spec_union(hs)[i] != 32u8,
        spec_union(hs).len() == spec_intersect(hs).len(),
{
}



/// Number of parts a reading splits the first `len` positions into: one
/// more than the number of break marks (anything but `' '` and `'X'`).
pub open spec fn count_parts(h: Seq<u8>, len: int) -> int
    decreases len,
{
    if len <= 0 {
        1
    } else {
        count_parts(h, len - 1) + (if h[len - 1] != 32u8 && h[len - 1] != 88u8 {
            1int
        } else {
            0int
        })
    }
}

/// The fewest parts over all readings; 0 when there are none.
pub open spec fn min_parts(hs: Seq<Seq<u8>>, len: int) -> int
    decreases hs.len(),
{
    if hs.len() == 0 {
        0
    } else if hs.len() == 1 {
        count_parts(hs[0], len)
    } else {
        let m = min_parts(hs.drop_last(), len);
        let c = count_parts(hs.last(), len);
        if c < m {
            c
        } else {
            m
        }
    }
}

/// Removal, from position `i` on, of the readings with more than `m`
/// parts; a removed reading is replaced by the last one.
pub open spec fn prune(hs: Seq<Seq<u8>>, i: int, m: int, len: int) -> Seq<Seq<u8>>
    decreases hs.len() - i,
{
    if i < 0 || i >= hs.len() {
        hs
    } else if count_parts(hs[i], len) > m {
        prune(hs.update(i, hs.last()).drop_last(), i, m, len)
    } else {
        prune(hs, i + 1, m, len)
    }
}

/// When some reading is not a compound (one part), the readings that
/// split the word into more parts are dropped.
pub open spec fn spec_remove_extra(hs: Seq<Seq<u8>>, len: int) -> Seq<Seq<u8>> {
    let m = min_parts(hs, len);
    if m > 1 {
        hs
    } else {
        prune(hs, 0, m, len)
    }
}

proof fn lemma_count_parts_bounds(h: Seq<u8>, len: int)
    requires
        0 <= len,
    ensures
        1 <= count_parts(h, len) <= len + 1,
    decreases len,
{
    if len > 0 {
        lemma_count_parts_bounds(h, len - 1);
    }
}

/// Pruning keeps only readings with at most `m` parts.
pub proof fn lemma_prune_within(hs: Seq<Seq<u8>>, i: int, m: int, len: int)
    requires
        0 <= i,
        forall|k: int| 0 <= k < i && k < hs.len() ==> count_parts(#[trigger] hs[k], len) <= m,
    ensures
        forall|k: int|
            0 <= k < prune(hs, i, m, len).len() ==> count_parts(
                #[trigger] prune(hs, i, m, len)[k],
                len,
            ) <= m,
    decreases hs.len() - i,
{
    if i < hs.len() {
        if count_parts(hs[i], len) > m {
            let t = hs.update(i, hs.last()).drop_last();
            assert forall|k: int| 0 <= k < i && k < t.len() implies count_parts(#[trigger] t[k], len)
                <= m by {
                assert(t[k] == hs[k]);
            }
            lemma_prune_within(t, i, m, len);
            assert(prune(hs, i, m, len) == prune(t, i, m, len));
        } else {
            lemma_prune_within(hs, i + 1, m, len);
            assert(prune(hs, i, m, len) == prune(hs, i + 1, m, len));
        }
    } else {
        assert(prune(hs, i, m, len) == hs);
    }
}

/// Pruning keeps every property that all readings share.
pub proof fn lemma_prune_preserves(hs: Seq<Seq<u8>>, i: int, m: int, len: int, p: spec_fn(Seq<u8>) -> bool)
    requires
        forall|k: int| 0 <= k < hs.len() ==> p(#[trigger] hs[k]),
    ensures
        forall|k: int| 0 <= k < prune(hs, i, m, len).len() ==> p(#[trigger] prune(hs, i, m, len)[k]),
    decreases hs.len() - i,
{
    if 0 <= i < hs.len() {
        if count_parts(hs[i], len) > m {
            let t = hs.update(i, hs.last()).drop_last();
            assert forall|k: int| 0 <= k < t.len() implies p(#[trigger] t[k]) by {
                if k == i {
                    assert(t[k] == hs[hs.len() - 1]);
                } else {
                    assert(t[k] == hs[k]);
                }
            }
            lemma_prune_preserves(t, i, m, len, p);
            assert(prune(hs, i, m, len) == prune(t, i, m, len));
        } else {
            lemma_prune_preserves(hs, i + 1, m, len, p);
            assert(prune(hs, i, m, len) == prune(hs, i + 1, m, len));
        }
    } else {
        assert(prune(hs, i, m, len) == hs);
    }
}

/// Some reading has exactly the fewest parts.
proof fn lemma_min_parts_attained(hs: Seq<Seq<u8>>, len: int)
    requires
        hs.len() > 0,
    ensures
        exists|j: int| 0 <= j < hs.len() && count_parts(#[trigger] hs[j], len) == min_parts(hs, len),
    decreases hs.len(),
{
    if hs.len() == 1 {
        assert(count_parts(hs[0], len) == min_parts(hs, len));
    } else {
        let d = hs.drop_last();
        lemma_min_parts_attained(d, len);
        let j = choose|j: int| 0 <= j < d.len() && count_parts(#[trigger] d[j], len) == min_parts(d, len);
        assert(d[j] == hs[j]);
        if count_parts(hs.last(), len) < min_parts(d, len) {
            assert(count_parts(hs[hs.len() - 1], len) == min_parts(hs, len));
        } else {
            assert(count_parts(hs[j], len) == min_parts(hs, len));
        }
    }
}

/// Pruning from `i` keeps the first `i` readings, and one more when some
/// reading from `i` on has at most `m` parts.
proof fn lemma_prune_len(hs: Seq<Seq<u8>>, i: int, m: int, len: int)
    requires
        0 <= i <= hs.len(),
    ensures
        prune(hs, i, m, len).len() >= i,
        (exists|j: int| i <= j < hs.len() && count_parts(#[trigger] hs[j], len) <= m) ==> prune(
            hs,
            i,
            m,
            len,
        ).len() > i,
    decreases hs.len() - i,
{
    if i < hs.len() {
        if count_parts(hs[i], len) > m {
            let t = hs.update(i, hs.last()).drop_last();
            if exists|j: int| i <= j < hs.len() && count_parts(#[trigger] hs[j], len) <= m {
                let j = choose|j: int| i <= j < hs.len() && count_parts(#[trigger] hs[j], len) <= m;
                if j == hs.len() - 1 {
                    assert(t[i] == hs[j]);
                    assert(count_parts(t[i], len) <= m);
                } else {
                    assert(t[j] == hs[j]);
                    assert(count_parts(t[j], len) <= m);
                }
            }
            lemma_prune_len(t, i, m, len);
            assert(prune(hs, i, m, len) == prune(t, i, m, len));
        } else {
            lemma_prune_len(hs, i + 1, m, len);
            assert(prune(hs, i, m, len) == prune(hs, i + 1, m, len));
        }
    } else {
        assert(prune(hs, i, m, len) == hs);
    }
}

/// Removing needless compound readings never removes all of them.
pub proof fn lemma_remove_extra_nonempty(hs: Seq<Seq<u8>>, len: int)
    requires
        hs.len() > 0,
    ensures
        spec_remove_extra(hs, len).len() > 0,
{
    let m = min_parts(hs, len);
    if m <= 1 {
        lemma_min_parts_attained(hs, len);
        let j = choose|j: int| 0 <= j < hs.len() && count_parts(#[trigger] hs[j], len) == min_parts(hs, len);
        assert(count_parts(hs[j], len) <= m);
        lemma_prune_len(hs, 0, m, len);
    }
}

fn count_marks_exec(h: &Vec<u8>, len: usize) -> (r: usize)
    requires
        len <= h@.len(),
    ensures
        r + 1 == count_parts(h@, len as int),
{
    let mut c: usize = 0;
    let mut i: usize = 0;
    while i < len
        invariant
            len <= h@.len(),
            i <= len,
            c + 1 == count_parts(h@, i as int),
            c <= i,
        decreases len - i,
    {
        if h[i] != 32u8 && h[i] != 88u8 {
            c += 1;
        }
        i += 1;
    }
    c
}

/// Drop the readings with more compound parts than necessary: when some
/// reading has a single part, every reading with more parts is removed.
pub fn remove_extra_hyphenations(hyphenations: &mut Vec<Vec<u8>>, len: usize)
    requires
        forall|k: int| 0 <= k < old(hyphenations)@.len() ==> (#[trigger] old(hyphenations)@[k])@.len() >= len,
    ensures
        buffers_view(final(hyphenations)@) == spec_remove_extra(buffers_view(old(hyphenations)@), len as int),
        min_parts(buffers_view(old(hyphenations)@), len as int) <= 1 ==> forall|k: int|
            0 <= k < final(hyphenations)@.len() ==> count_parts(
                #[trigger] final(hyphenations)@[k]@,
                len as int,
            ) <= min_parts(buffers_view(old(hyphenations)@), len as int),
{
    let ghost hs0 = buffers_view(hyphenations@);
    if hyphenations.len() == 0 {
        proof {
            assert(prune(hs0, 0, min_parts(hs0, len as int), len as int) == hs0);
        }
        return ;
    }
    let mut min_m: usize = count_marks_exec(&hyphenations[0], len);
    let mut n: usize = 1;
    proof {
        assert(hs0.take(1).len() == 1);
        assert(hs0.take(1)[0] == hyphenations@[0]@);
    }
    while n < hyphenations.len()
        invariant
            hs0 == buffers_view(hyphenations@),
            hyphenations@ == old(hyphenations)@,
            forall|k: int| 0 <= k < hyphenations@.len() ==> (#[trigger] hyphenations@[k])@.len() >= len,
            1 <= n <= hyphenations@.len(),
            min_m + 1 == min_parts(hs0.take(n as int), len as int),
        decreases hyphenations.len() - n,
    {
        let c = count_marks_exec(&hyphenations[n], len);
        proof {
            assert(hs0.take(n + 1).drop_last() =~= hs0.take(n as int));
            assert(hs0.take(n + 1).last() == hyphenations@[n as int]@);
        }
        if c < min_m {
            min_m = c;
        }
        n += 1;
    }
    assert(hs0.take(n as int) =~= hs0);
    if min_m > 0 {
        return ;
    }
    let ghost mp: int = min_parts(hs0, len as int);
    let mut i: usize = 0;
    while i < hyphenations.len()
        invariant
            forall|k: int| 0 <= k < hyphenations@.len() ==> (#[trigger] hyphenations@[k])@.len() >= len,
            mp == min_parts(hs0, len as int),
            mp == min_m + 1,
            prune(buffers_view(hyphenations@), i as int, mp, len as int) == prune(hs0, 0, mp, len as int),
            forall|k: int| 0 <= k < i && k < hyphenations@.len() ==> count_parts(
                #[trigger] hyphenations@[k]@,
                len as int,
            ) <= mp,
        decreases hyphenations.len() - i,
    {
        let ghost before = buffers_view(hyphenations@);
        let marks = count_marks_exec(&hyphenations[i], len);
        assert(before[i as int] == hyphenations@[i as int]@);
        if marks > min_m {
            let ghost old_v = hyphenations@;
            hyphenations.swap_remove(i);
            proof {
                assert(buffers_view(hyphenations@) =~= before.update(i as int, before.last()).drop_last());
                assert forall|k: int| 0 <= k < i && k < hyphenations@.len() implies count_parts(
                    #[trigger] hyphenations@[k]@,
                    len as int,
                ) <= mp by {
                    assert(hyphenations@[k] == old_v[k]);
                }
                assert forall|k: int| 0 <= k < hyphenations@.len() implies (#[trigger] hyphenations@[k])@.len() >= len by {
                    if k == i {
                        assert(hyphenations@[k] == old_v.last());
                    } else {
                        assert(hyphenations@[k] == old_v[k]);
                    }
                }
            }
        } else {
            i += 1;
        }
    }
    proof {
        assert(buffers_view(hyphenations@) == prune(buffers_view(hyphenations@), i as int, mp, len as int));
        lemma_prune_within(hs0, 0, mp, len as int);
        assert forall|k: int| 0 <= k < hyphenations@.len() implies count_parts(
            #[trigger] hyphenations@[k]@,
            len as int,
        ) <= mp by {
            assert(buffers_view(hyphenations@)[k] == hyphenations@[k]@);
        }
    }
}

/// A STRUCTURE string gives buffer positions holding only `' '`, `'-'`,
/// `'='` and `'X'`.
proof fn lemma_interpret_marks(st: Seq<char>, sptr: int, i: int, len: int)
    requires
        0 <= i <= len,
    ensures
        buffer_marks(interpret_from(st, sptr, i, len)),
    decreases len - i,
{
    lemma_interpret_len(st, sptr, i, len);
    if i < len && 0 <= sptr < st.len() {
        let r = interpret_from(st, sptr, i, len);
        let nsptr = if st[sptr] == '-' && sptr + 1 < st.len() && st[sptr + 1] == '=' {
            sptr + 2
        } else if st[sptr] == '=' {
            sptr + 2
        } else {
            sptr + 1
        };
        lemma_interpret_marks(st, nsptr, i + 1, len);
        let rest = interpret_from(st, nsptr, i + 1, len);
        assert forall|j: int| 0 <= j < r.len() implies #[trigger] is_buffer_byte(r[j]) by {
            if j > 0 {
                assert(r[j] == rest[j - 1]);
                assert(is_buffer_byte(rest[j - 1]));
            }
        }
    }
}

/// Reading an analysis into a buffer keeps its length and its bytes among
/// `' '`, `'-'`, `'='` and `'X'`.
pub(crate) proof fn lemma_interpret_analysis_marks(a: Map<Seq<char>, Seq<char>>, b: Seq<u8>, len: int)
    requires
        buffer_marks(b),
        0 <= len <= b.len(),
    ensures
        spec_interpret_analysis(a, b, len).len() == b.len(),
        buffer_marks(spec_interpret_analysis(a, b, len)),
{
    if a.contains_key(ATTR_STRUCTURE@) {
        let st = a[ATTR_STRUCTURE@];
        let start = if st.len() > 0 && st[0] == '=' {
            1int
        } else {
            0int
        };
        lemma_interpret_len(st, start, 0, len);
        lemma_interpret_marks(st, start, 0, len);
        let head = interpret_from(st, start, 0, len);
        let r = head + b.skip(len);
        assert forall|j: int| 0 <= j < r.len() implies #[trigger] is_buffer_byte(r[j]) by {
            if j < len {
                assert(r[j] == head[j]);
                assert(is_buffer_byte(head[j]));
            } else {
                assert(r[j] == b[j]);
                assert(is_buffer_byte(b[j]));
            }
        }
    }
}

/// Merging readings whose bytes are `' '`, `'-'`, `'='` or `'X'` gives a
/// buffer of `' '`, `'-'` and `'='` only.
pub(crate) proof fn lemma_merge_marks(hs: Seq<Seq<u8>>)
    requires
        forall|k: int| 0 <= k < hs.len() ==> buffer_marks(#[trigger] hs[k]),
    ensures
        forall|i: int|
            0 <= i < spec_intersect(hs).len() ==> #[trigger] spec_intersect(hs)[i] == 32u8 || spec_intersect(hs)[i]
                == 45u8 || spec_intersect(hs)[i] == 61u8,
        forall|i: int|
            0 <= i < spec_union(hs).len() ==> #[trigger] spec_union(hs)[i] == 32u8 || spec_union(hs)[i] == 45u8
                || spec_union(hs)[i] == 61u8,
{
    if hs.len() > 0 {
        assert(buffer_marks(hs[0]));
        assert forall|i: int| 0 <= i < spec_intersect(hs).len() implies #[trigger] spec_intersect(hs)[i] == 32u8
            || spec_intersect(hs)[i] == 45u8 || spec_intersect(hs)[i] == 61u8 by {
            assert(is_buffer_byte(hs[0][i]));
        }
        assert forall|i: int| 0 <= i < spec_union(hs).len() implies #[trigger] spec_union(hs)[i] == 32u8
            || spec_union(hs)[i] == 45u8 || spec_union(hs)[i] == 61u8 by {
            assert(is_buffer_byte(hs[0][i]));
        }
    }
}

} // verus!
