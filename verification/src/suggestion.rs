//! Spelling suggestions: candidate words built by edit operations on a
//! misspelled word and kept where the speller accepts them.

pub mod status;


pub mod generators;
pub mod strategy;
