//! A solver's toolkit for Wordle-style games: the feedback a guess earns
//! against an answer, and ways to rank guesses by how well they narrow the
//! candidate answers.

pub mod dictionary;
pub mod engine;
pub mod guesser;
pub mod guesser_family;
pub mod words;
pub mod words_family;

use vstd::prelude::*;

pub use dictionary::{Dictionary, StringDictionary};

verus! {

/// A text did not have the shape that was asked for: the wrong number of
/// characters, or a character that is no letter.
#[derive(Debug, PartialEq, Eq)]
pub struct IteratorIntoArrayError;

} // verus!
