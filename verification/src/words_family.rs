//! Words and patterns of a fixed length, and what a family of them offers.

pub mod words_1;

use crate::engine::{consistent, feedback};
use vstd::prelude::*;

pub use crate::engine::LetterType;

verus! {

/// What a word offers.
pub trait WordTrait: Sized + Copy {
    type Data;

    /// The letters of the word.
    spec fn letters(&self) -> Seq<char>;

    /// The letters that the data of a word holds.
    spec fn spelled(word: Self::Data) -> Seq<char>;

    /// The word of the given data.
    fn new(word: Self::Data) -> (made: Self)
        ensures
            made.letters() == Self::spelled(word),
    ;

    /// Whether two words have the same letters.
    fn same(&self, other: &Self) -> (yes: bool)
        ensures
            yes == (self.letters() == other.letters()),
    ;
}

/// What a pattern offers.
pub trait PatternTrait: Sized {
    type Data;

    /// The verdicts of the pattern.
    spec fn verdicts(&self) -> Seq<LetterType>;

    /// The verdicts that the data of a pattern holds.
    spec fn marked(pattern: Self::Data) -> Seq<LetterType>;

    /// The pattern of the given data.
    fn new(pattern: Self::Data) -> (made: Self)
        ensures
            made.verdicts() == Self::marked(pattern),
    ;
}

/// A kind of word together with the kind of pattern that judges it, and the
/// two operations that bind them.
pub trait Family {
    type Word: WordTrait;

    type Pattern: PatternTrait;

    /// The feedback that `guess` earns against `answer`.
    fn from_guess(guess: &Self::Word, answer: &Self::Word) -> (pattern: Self::Pattern)
        ensures
            pattern.verdicts() == feedback(guess.letters(), answer.letters()),
    ;

    /// Whether `candidate`, as the answer, gives `guess` exactly `pattern`.
    fn matches(candidate: &Self::Word, pattern: &Self::Pattern, guess: &Self::Word) -> (agrees:
        bool)
        ensures
            agrees == consistent(candidate.letters(), pattern.verdicts(), guess.letters()),
    ;
}

/// The pattern type of a family.
pub type Pattern<F> = <F as Family>::Pattern;

/// The word type of a family.
pub type Word<F> = <F as Family>::Word;

} // verus!
