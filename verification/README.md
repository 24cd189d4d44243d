# voikko

Finnish language processing with machine-checked contracts: character
classes and letter case, analyses, a spelling pipeline, hyphenation and
grammar rules and spelling suggestions. Every function in `src/` is
verified with Verus against the contract in its header, except five small
wrappers around the standard library (listed below) whose contracts are
trusted.

## Layout

- `src/character.rs`, `src/case.rs`, `src/text.rs` — character classes,
  case patterns, small text helpers.
- `src/analysis.rs`, `src/morphology.rs` — morphological analyses (a map
  of attributes) and the analyzer interface.
- `src/speller/` — the spelling pipeline (normalization, case handling,
  optional hyphens, soft hyphens, ambiguous compounds).
- `src/hyphenator.rs`, `src/hyphenator/` — syllable rules, compound
  boundaries from analyses, and the merging of several readings.
- `src/grammar/` — annotated paragraphs, the rule set (punctuation,
  quotations, repeated words, verbs, conjunctions, capitalization), the
  rule engine, the result cache, and the autocorrect bookkeeping.
- `src/suggestion/` — spelling suggestions: the search state (budget,
  limit, suggestions found), the edit generators (deletion, insertion,
  replacement, swaps, splits, vowel harmony, ...) with their candidate
  lists as spec functions, and the typing and OCR strategies.
- `src/readability.rs` — the counts behind the readability indices
  (sentences, words, known words, syllables from hyphenation points,
  characters, punctuation, words with a long base form).
- `src/cli.rs` — argument handling shared by command-line tools.
- `app/` — the command-line glue that reads the environment and exits on
  errors, and the readability report, whose indices are floating-point
  formulas over the library's counts.
- `tests/` — tests of the library from outside.

The analyzer, the speller and the autocorrect transducer are consulted
through interfaces; where their answers decide a result, the library
offers a verified function that takes the answer as an argument.

## Trusted wrappers

Each holds one call into the standard library; its contract restates the
library's documentation:

- `character.rs`: `first_of_to_lowercase`, `first_of_to_uppercase`
  (`char::to_lowercase`, `char::to_uppercase`). `lowercase_of` and
  `uppercase_of` state the mappings of ASCII and of the Finnish letters
  Å, Ä, Ö, å, ä, ö; the rest of the Unicode tables is named
  (`other_lowercase_of`, `other_uppercase_of`).
- `cli.rs`: `char_is_uppercase`, `char_is_lowercase` (`char::is_uppercase`,
  `char::is_lowercase`). `unicode_uppercase` and `unicode_lowercase` state
  the properties for the same characters; the rest is named
  (`other_uppercase_property`, `other_lowercase_property`).
- `text.rs`: `push_char` (`String::push`).

## Not covered

- Tokenization, sentence splitting and paragraph analysis, and the
  grammar checker that builds on them.
- The transducer-based morphological analyzer, the transducer-based
  suggestion generator, the top-level handle and the C interface, and so
  the command-line programs built on the handle.
- A cache of spelling results (`spell_check` takes no cache).

The `Speller` and `Analyzer` traits are implemented by their users,
including plain Rust code such as the tests, so they carry no
specification of their answers. The library asks them through
`ask_speller` and `ask_analyzer`, which call the trait method as a function
value; Verus then knows that the result is an answer that the
implementation may give to exactly that question (`speller_answer` and
`analyzer_answer`, over `call_ensures`). Contracts that depend on the
answers say which questions are asked and what follows from any answers
to them; a speller that gives one answer for one word (`answers_alike`)
makes them exact.
