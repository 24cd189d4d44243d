//! Finnish language processing: character classification, case handling,
//! spelling pipeline, spelling suggestions, hyphenation and grammar-checking
//! rules.

pub mod character;
pub mod case;
pub mod enums;
pub mod text;
pub mod grammar_error;
pub mod token;
pub mod analysis;
pub mod morphology;
pub mod speller;
pub mod hyphenator;
pub mod grammar;
pub mod cli;
pub mod suggestion;
pub mod readability;
