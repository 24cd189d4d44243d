//! Case pattern detection and conversion.

use vstd::prelude::*;
use vstd::slice::SliceAdditionalExecFns;
use crate::character::{
    is_lower, is_upper, lowercase_of, simple_lower, simple_upper, spec_is_lower, spec_is_upper,
    uppercase_of,
};

verus! {

/// Classification of character casing within a word.
#[derive(Debug, Clone, Copy, PartialEq, Eq, Hash, Structural)]
pub enum CaseType {
    /// No letters found in the word.
    NoLetters,
    /// All letters are lowercase: "koira".
    AllLower,
    /// First letter is uppercase, rest are lowercase: "Koira".
    FirstUpper,
    /// Mixed case that does not fit other patterns: "koIra".
    Complex,
    /// All letters are uppercase: "KOIRA".
    AllUpper,
}

pub open spec fn has_upper_from(w: Seq<char>, start: int) -> bool {
    exists|i: int| start <= i < w.len() && spec_is_upper(#[trigger] w[i])
}

pub open spec fn has_lower(w: Seq<char>) -> bool {
    exists|i: int| 0 <= i < w.len() && spec_is_lower(#[trigger] w[i])
}

/// The case pattern of a word. Characters that are neither upper- nor
/// lowercase are ignored.
pub open spec fn spec_detect_case(w: Seq<char>) -> CaseType {
    if !has_upper_from(w, 0) && !has_lower(w) {
        CaseType::NoLetters
    } else if !has_lower(w) {
        CaseType::AllUpper
    } else if has_upper_from(w, 1) {
        CaseType::Complex
    } else if spec_is_upper(w[0]) {
        CaseType::FirstUpper
    } else {
        CaseType::AllLower
    }
}

/// Detect the case pattern of a character slice.
pub fn detect_case(word: &[char]) -> (r: CaseType)
    ensures
        r == spec_detect_case(word@),
{
    if word.len() == 0 {
        return CaseType::NoLetters;
    }
    let mut first_uc = false;
    let mut rest_lc = true;
    let mut all_uc = true;
    let mut no_letters = true;
    if is_upper(word[0]) {
        first_uc = true;
        no_letters = false;
    }
    if is_lower(word[0]) {
        all_uc = false;
        no_letters = false;
    }
    let mut i: usize = 1;
    while i < word.len()
        invariant
            1 <= i <= word.len(),
            first_uc == spec_is_upper(word@[0]),
            rest_lc == !(exists|k: int| 1 <= k < i && spec_is_upper(#[trigger] word@[k])),
            all_uc == !(exists|k: int| 0 <= k < i && spec_is_lower(#[trigger] word@[k])),
            no_letters == !(exists|k: int|
                0 <= k < i && (spec_is_upper(#[trigger] word@[k]) || spec_is_lower(word@[k]))),
        decreases word.len() - i,
    {
        let c = word[i];
        if is_upper(c) {
            no_letters = false;
            rest_lc = false;
        }
        if is_lower(c) {
            all_uc = false;
            no_letters = false;
        }
        i += 1;
    }
    proof {
        let w = word@;
        if !no_letters {
            let k = choose|k: int|
                0 <= k < w.len() && (spec_is_upper(#[trigger] w[k]) || spec_is_lower(w[k]));
            if spec_is_upper(w[k]) {
                assert(has_upper_from(w, 0));
            } else {
                assert(has_lower(w));
            }
        }
        if has_upper_from(w, 0) {
            let k = choose|k: int| 0 <= k < w.len() && spec_is_upper(#[trigger] w[k]);
            assert(!no_letters);
        }
        if !rest_lc {
            let k = choose|k: int| 1 <= k < w.len() && spec_is_upper(#[trigger] w[k]);
            assert(has_upper_from(w, 1));
        }
        if has_lower(w) {
            let k = choose|k: int| 0 <= k < w.len() && spec_is_lower(#[trigger] w[k]);
            assert(!all_uc);
        }
    }
    if no_letters {
        return CaseType::NoLetters;
    }
    if all_uc {
        return CaseType::AllUpper;
    }
    if !rest_lc {
        return CaseType::Complex;
    }
    if first_uc {
        CaseType::FirstUpper
    } else {
        CaseType::AllLower
    }
}

/// The word after a case transformation: `AllLower` and `AllUpper` map every
/// character, `FirstUpper` uppercases the first and lowercases the rest,
/// `NoLetters` and `Complex` leave the word as it is.
pub open spec fn spec_set_case(w: Seq<char>, case_type: CaseType) -> Seq<char> {
    match case_type {
        CaseType::AllLower => Seq::new(w.len(), |i: int| lowercase_of(w[i])),
        CaseType::AllUpper => Seq::new(w.len(), |i: int| uppercase_of(w[i])),
        CaseType::FirstUpper => Seq::new(
            w.len(),
            |i: int|
                if i == 0 {
                    uppercase_of(w[i])
                } else {
                    lowercase_of(w[i])
                },
        ),
        _ => w,
    }
}

/// Apply a case transformation to a mutable character slice.
pub fn set_case(word: &mut [char], case_type: CaseType)
    ensures
        final(word)@ == spec_set_case(old(word)@, case_type),
{
    let n = word.len();
    if n == 0 {
        proof {
            assert(spec_set_case(old(word)@, case_type) =~= old(word)@);
        }
        return ;
    }
    match case_type {
        CaseType::NoLetters | CaseType::Complex => {},
        _ => {
            let mut i: usize = 0;
            while i < n
                invariant
                    n == word@.len(),
                    n == old(word)@.len(),
                    i <= n,
                    case_type != CaseType::NoLetters && case_type != CaseType::Complex,
                    forall|k: int| i <= k < n ==> word@[k] == old(word)@[k],
                    forall|k: int|
                        0 <= k < i ==> word@[k] == spec_set_case(old(word)@, case_type)[k],
                decreases n - i,
            {
                let c = word[i];
                let m = match case_type {
                    CaseType::AllUpper => simple_upper(c),
                    CaseType::FirstUpper => {
                        if i == 0 {
                            simple_upper(c)
                        } else {
                            simple_lower(c)
                        }
                    },
                    _ => simple_lower(c),
                };
                word.set(i, m);
                i += 1;
            }
        },
    }
    proof {
        assert(word@ =~= spec_set_case(old(word)@, case_type));
    }
}

} // verus!
