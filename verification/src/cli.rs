//! Command-line argument handling shared by the command-line tools.

use vstd::prelude::*;
use crate::analysis::{Analysis, ATTR_STRUCTURE};
use crate::morphology::analyses_view;
use crate::character::{case_mapping_stated, is_finnish_lower_extra, is_finnish_upper_extra};
use crate::text::{str_eq, str_to_chars, chars_start_with, chars_to_string, has_prefix};

verus! {

/// The subdirectory of a dictionary package that holds the morphology.
pub const DICT_SUBDIR: &'static str = "5/mor-standard";

/// File name of the morphology transducer.
pub const MOR_VFST: &'static str = "mor.vfst";

/// File name of the autocorrect transducer.
pub const AUTOCORR_VFST: &'static str = "autocorr.vfst";

/// The argument asks for help.
pub open spec fn is_help_flag(a: Seq<char>) -> bool {
    a == "--help"@ || a == "-h"@
}

/// The characters of a list of strings.
pub open spec fn strings_view(v: Seq<String>) -> Seq<Seq<char>> {
    v.map_values(|s: String| s@)
}

/// Whether `--help` or `-h` is among the arguments.
pub fn wants_help(args: &[String]) -> (r: bool)
    ensures
        r == exists|i: int| 0 <= i < args@.len() && is_help_flag(#[trigger] args@[i]@),
{
    let mut i: usize = 0;
    while i < args.len()
        invariant
            i <= args@.len(),
            forall|k: int| 0 <= k < i ==> !is_help_flag(#[trigger] args@[k]@),
        decreases args.len() - i,
    {
        let a = args[i].as_str();
        if str_eq(a, "--help") || str_eq(a, "-h") {
            assert(is_help_flag(args@[i as int]@));
            return true;
        }
        i += 1;
    }
    false
}

/// Length of the prefix `--dict-path=`.
pub open spec fn dict_path_prefix() -> Seq<char> {
    "--dict-path="@
}

/// The arguments from `i` on read for a dictionary path: `--dict-path=PATH`,
/// or `--dict-path PATH` or `-d PATH` (the last one given wins); the other
/// arguments are kept in order. A flag without its value is an error that
/// names the flag.
pub open spec fn dict_path_from(
    args: Seq<Seq<char>>,
    i: int,
    dict: Option<Seq<char>>,
    rest: Seq<Seq<char>>,
) -> Result<(Option<Seq<char>>, Seq<Seq<char>>), Seq<char>>
    decreases args.len() - i,
{
    if i < 0 || i >= args.len() {
        Ok((dict, rest))
    } else {
        let a = args[i];
        if has_prefix(a, dict_path_prefix()) {
            dict_path_from(args, i + 1, Some(a.skip(dict_path_prefix().len() as int)), rest)
        } else if a == "--dict-path"@ || a == "-d"@ {
            if i + 1 < args.len() {
                dict_path_from(args, i + 2, Some(args[i + 1]), rest)
            } else {
                Err(a)
            }
        } else {
            dict_path_from(args, i + 1, dict, rest.push(a))
        }
    }
}

/// The view of a parse result.
pub open spec fn parse_view(r: Result<(Option<String>, Vec<String>), String>) -> Result<
    (Option<Seq<char>>, Seq<Seq<char>>),
    Seq<char>,
> {
    match r {
        Ok((d, rest)) => Ok(
            (
                match d {
                    Some(s) => Some(s@),
                    None => None,
                },
                strings_view(rest@),
            ),
        ),
        Err(flag) => Err(flag@),
    }
}

/// The value after `--dict-path=`, if the argument starts with it.
fn dict_path_value(arg: &str) -> (r: Option<String>)
    ensures
        r is Some <==> has_prefix(arg@, dict_path_prefix()),
        r matches Some(v) ==> v@ == arg@.skip(dict_path_prefix().len() as int),
{
    let prefix = "--dict-path=";
    proof {
        reveal_strlit("--dict-path=");
    }
    let n = prefix.unicode_len();
    let chars = str_to_chars(arg);
    if !chars_start_with(chars.as_slice(), prefix) {
        return None;
    }
    let mut value: Vec<char> = Vec::new();
    let mut j: usize = n;
    while j < chars.len()
        invariant
            n <= j <= chars@.len(),
            value@ == chars@.subrange(n as int, j as int),
        decreases chars.len() - j,
    {
        value.push(chars[j]);
        j += 1;
        proof {
            assert(value@ =~= chars@.subrange(n as int, j as int));
        }
    }
    assert(value@ =~= arg@.skip(n as int));
    Some(chars_to_string(value.as_slice()))
}

/// Read a dictionary path from the arguments: `--dict-path=PATH`,
/// `--dict-path PATH` or `-d PATH`; the other arguments are given back in
/// order. A flag without its value gives `Err` with the flag.
pub fn parse_dict_path(args: &[String]) -> (r: Result<(Option<String>, Vec<String>), String>)
    ensures
        parse_view(r) == dict_path_from(strings_view(args@), 0, None, Seq::empty()),
{
    let ghost av = strings_view(args@);
    let mut dict_path: Option<String> = None;
    let mut remaining: Vec<String> = Vec::new();
    let mut i: usize = 0;
    assert(strings_view(remaining@) =~= Seq::<Seq<char>>::empty());
    while i < args.len()
        invariant
            av == strings_view(args@),
            i <= args@.len(),
            dict_path_from(
                av,
                i as int,
                match dict_path {
                    Some(s) => Some(s@),
                    None => None,
                },
                strings_view(remaining@),
            ) == dict_path_from(av, 0, None, Seq::empty()),
        decreases args.len() - i,
    {
        let arg = &args[i];
        assert(av[i as int] == arg@);
        match dict_path_value(arg.as_str()) {
            Some(v) => {
                dict_path = Some(v);
                i += 1;
            },
            None => {
                if str_eq(arg.as_str(), "--dict-path") || str_eq(arg.as_str(), "-d") {
                    if i + 1 < args.len() {
                        assert(av[i + 1] == args@[i + 1]@);
                        dict_path = Some(args[i + 1].clone());
                        i += 2;
                    } else {
                        return Err(arg.clone());
                    }
                } else {
                    let ghost before = remaining@;
                    remaining.push(arg.clone());
                    proof {
                        assert(strings_view(remaining@) =~= strings_view(before).push(arg@));
                    }
                    i += 1;
                }
            },
        }
    }
    Ok((dict_path, remaining))
}

/// Whether a character outside ASCII other than Å, Ä, Ö, å, ä, ö has the
/// Unicode `Uppercase` property: from the Unicode tables, only named here.
pub uninterp spec fn other_uppercase_property(c: char) -> bool;

/// Whether a character outside ASCII other than Å, Ä, Ö, å, ä, ö has the
/// Unicode `Lowercase` property: from the Unicode tables, only named here.
pub uninterp spec fn other_lowercase_property(c: char) -> bool;

/// Whether a character has the Unicode `Uppercase` property: among ASCII
/// characters and the Finnish letters exactly `A`–`Z` and Å, Ä, Ö.
pub open spec fn unicode_uppercase(c: char) -> bool {
    if case_mapping_stated(c) {
        ('A' <= c && c <= 'Z') || is_finnish_upper_extra(c)
    } else {
        other_uppercase_property(c)
    }
}

/// Whether a character has the Unicode `Lowercase` property: among ASCII
/// characters and the Finnish letters exactly `a`–`z` and å, ä, ö.
pub open spec fn unicode_lowercase(c: char) -> bool {
    if case_mapping_stated(c) {
        ('a' <= c && c <= 'z') || is_finnish_lower_extra(c)
    } else {
        other_lowercase_property(c)
    }
}

/// `char::is_uppercase`: whether the character has the Unicode `Uppercase`
/// property. Among ASCII characters and the Finnish letters that is
/// exactly `A`–`Z` and Å, Ä, Ö; the rest is only named.
#[verifier::external_body]
fn char_is_uppercase(c: char) -> (r: bool)
    ensures
        r == unicode_uppercase(c),
        !case_mapping_stated(c) ==> r == other_uppercase_property(c),
{
    c.is_uppercase()
}

/// `char::is_lowercase`: whether the character has the Unicode `Lowercase`
/// property. Among ASCII characters and the Finnish letters that is
/// exactly `a`–`z` and å, ä, ö; the rest is only named.
#[verifier::external_body]
fn char_is_lowercase(c: char) -> (r: bool)
    ensures
        r == unicode_lowercase(c),
        !case_mapping_stated(c) ==> r == other_lowercase_property(c),
{
    c.is_lowercase()
}

/// The reading is a proper noun: its STRUCTURE starts with `=i`.
pub open spec fn proper_noun_reading(a: Map<Seq<char>, Seq<char>>) -> bool {
    a.contains_key(ATTR_STRUCTURE@) && has_prefix(a[ATTR_STRUCTURE@], "=i"@)
}

/// The readings that are not proper nouns, in order.
pub open spec fn common_readings(an: Seq<Map<Seq<char>, Seq<char>>>) -> Seq<Map<Seq<char>, Seq<char>>> {
    an.filter(|a: Map<Seq<char>, Seq<char>>| !proper_noun_reading(a))
}

/// The readings of a word that are kept: a word written with a lower-case
/// first letter cannot really be a proper noun, so its other readings are
/// preferred when it has some; a capitalized word ("Kari") keeps all.
pub open spec fn filtered_readings(an: Seq<Map<Seq<char>, Seq<char>>>, w: Seq<char>) -> Seq<Map<Seq<char>, Seq<char>>> {
    if w.len() < 2 || an.len() == 0 {
        an
    } else if unicode_uppercase(w[0]) && unicode_lowercase(w[1]) {
        an
    } else if unicode_lowercase(w[0]) && common_readings(an).len() > 0 {
        common_readings(an)
    } else {
        an
    }
}

/// Copies of all the analyses.
fn copy_analyses(analyses: &[Analysis]) -> (r: Vec<Analysis>)
    ensures
        analyses_view(r@) == analyses_view(analyses@),
{
    let mut r: Vec<Analysis> = Vec::new();
    let mut i: usize = 0;
    while i < analyses.len()
        invariant
            i <= analyses@.len(),
            r@.len() == i,
            analyses_view(r@) == analyses_view(analyses@.take(i as int)),
        decreases analyses.len() - i,
    {
        let a = analyses[i].clone();
        assert(a@ == analyses@[i as int]@);
        let ghost before = r@;
        r.push(a);
        i += 1;
        proof {
            assert forall|j: int| 0 <= j < i implies #[trigger] analyses_view(r@)[j] == analyses_view(analyses@.take(i as int))[j] by {
                if j < i - 1 {
                    assert(r@[j] == before[j]);
                    assert(analyses_view(before)[j] == analyses_view(analyses@.take(i - 1))[j]);
                }
            }
            assert(analyses_view(r@) =~= analyses_view(analyses@.take(i as int)));
        }
    }
    proof {
        assert(analyses@.take(i as int) =~= analyses@);
    }
    r
}

/// Whether the analysis's STRUCTURE starts with `=i`.
fn is_proper_noun_reading(a: &Analysis) -> (r: bool)
    ensures
        r == proper_noun_reading(a@),
{
    match a.get(ATTR_STRUCTURE) {
        Some(st) => {
            proof {
                reveal_strlit("=i");
            }
            let n = st.unicode_len();
            if n < 2 {
                return false;
            }
            let c0 = st.get_char(0);
            let c1 = st.get_char(1);
            assert("=i"@ =~= seq!['=', 'i']);
            assert(st@.take(2) =~= seq![c0, c1]);
            if c0 == '=' && c1 == 'i' {
                true
            } else {
                assert(st@.take(2)[0] != "=i"@[0] || st@.take(2)[1] != "=i"@[1]);
                false
            }
        },
        None => false,
    }
}

/// The analyses of a word to keep: for a word starting with a lower-case
/// letter, the readings that are not proper nouns when there are some;
/// otherwise all of them.
pub fn filter_analysis_list(analyses: &[Analysis], word: &str) -> (r: Vec<Analysis>)
    ensures
        analyses_view(r@) == filtered_readings(analyses_view(analyses@), word@),
{
    let ghost an = analyses_view(analyses@);
    let chars = str_to_chars(word);
    if chars.len() < 2 || analyses.len() == 0 {
        return copy_analyses(analyses);
    }
    if char_is_uppercase(chars[0]) && char_is_lowercase(chars[1]) {
        return copy_analyses(analyses);
    }
    if char_is_lowercase(chars[0]) {
        let mut filtered: Vec<Analysis> = Vec::new();
        let mut i: usize = 0;
        while i < analyses.len()
            invariant
                an == analyses_view(analyses@),
                i <= analyses@.len(),
                analyses_view(filtered@) == common_readings(an.take(i as int)),
            decreases analyses.len() - i,
        {
            let keep = !is_proper_noun_reading(&analyses[i]);
            proof {
                assert(an.take(i + 1).drop_last() =~= an.take(i as int));
                assert(an.take(i + 1).last() == analyses@[i as int]@);
                reveal(Seq::filter);
                assert(common_readings(an.take(i + 1)) == if keep {
                    common_readings(an.take(i as int)).push(an[i as int])
                } else {
                    common_readings(an.take(i as int))
                });
            }
            if keep {
                let a = analyses[i].clone();
                assert(a@ == an[i as int]);
                let ghost before = filtered@;
                filtered.push(a);
                proof {
                    assert(analyses_view(filtered@) =~= analyses_view(before).push(an[i as int]));
                }
            }
            i += 1;
        }
        proof {
            assert(an.take(i as int) =~= an);
        }
        if filtered.len() > 0 {
            return filtered;
        }
    }
    copy_analyses(analyses)
}

} // verus!
