//! Words, and patterns that carry the letters of the guess they judge.

pub mod words_1;
pub mod words_2;

use crate::engine;
use crate::engine::{consistent, feedback};
use crate::guesser::prepare_patterns;
use crate::words_family::words_1::{
    read_colors, read_letters, text_of_word, verdict_of_code, word_of_text, write_letters,
};
use vstd::prelude::*;

pub use crate::guesser::PatternCache;
pub use crate::IteratorIntoArrayError;
pub use words_1::{Pattern1, Word1};
pub use words_2::{Pattern2, Word2};

verus! {

/// The colour of one letter of a guess.
#[derive(Debug, Copy, Clone, PartialEq, Eq, Structural)]
pub enum LetterType {
    /// The letter stands at this position in the answer.
    Green,
    /// The letter occurs elsewhere in the answer.
    Yellow,
    /// The answer has no unclaimed instance of the letter.
    Gray,
}

/// The verdict that a colour stands for.
pub open spec fn verdict_of(color: LetterType) -> engine::LetterType {
    match color {
        LetterType::Green => engine::LetterType::Correct,
        LetterType::Yellow => engine::LetterType::Misplaced,
        LetterType::Gray => engine::LetterType::Absent,
    }
}

/// The colour that a verdict is shown in.
pub open spec fn color_of(verdict: engine::LetterType) -> LetterType {
    match verdict {
        engine::LetterType::Correct => LetterType::Green,
        engine::LetterType::Misplaced => LetterType::Yellow,
        engine::LetterType::Absent => LetterType::Gray,
    }
}

impl LetterType {
    /// The verdict that this colour stands for.
    pub fn verdict(self) -> (v: engine::LetterType)
        ensures
            v == verdict_of(self),
    {
        match self {
            LetterType::Green => engine::LetterType::Correct,
            LetterType::Yellow => engine::LetterType::Misplaced,
            LetterType::Gray => engine::LetterType::Absent,
        }
    }

    /// The colour that a verdict is shown in.
    pub fn of(verdict: engine::LetterType) -> (color: Self)
        ensures
            color == color_of(verdict),
            verdict_of(color) == verdict,
    {
        match verdict {
            engine::LetterType::Correct => LetterType::Green,
            engine::LetterType::Misplaced => LetterType::Yellow,
            engine::LetterType::Absent => LetterType::Gray,
        }
    }
}

/// One letter of a guess with its colour.
#[derive(Debug, Copy, Clone, PartialEq, Eq)]
pub struct PatternLetter {
    pub letter_type: LetterType,
    pub letter: char,
}

impl PatternLetter {
    pub fn green(letter: char) -> (made: Self)
        ensures
            made.letter == letter,
            made.letter_type == LetterType::Green,
    {
        Self { letter_type: LetterType::Green, letter }
    }

    pub fn yellow(letter: char) -> (made: Self)
        ensures
            made.letter == letter,
            made.letter_type == LetterType::Yellow,
    {
        Self { letter_type: LetterType::Yellow, letter }
    }

    pub fn gray(letter: char) -> (made: Self)
        ensures
            made.letter == letter,
            made.letter_type == LetterType::Gray,
    {
        Self { letter_type: LetterType::Gray, letter }
    }
}

/// A letter that can be given a colour.
pub trait WrapLetter {
    /// The letter that is wrapped.
    spec fn wrapped(self) -> char;

    fn green(self) -> (made: PatternLetter)
        ensures
            made.letter == self.wrapped(),
            made.letter_type == LetterType::Green,
    ;

    fn yellow(self) -> (made: PatternLetter)
        ensures
            made.letter == self.wrapped(),
            made.letter_type == LetterType::Yellow,
    ;

    fn gray(self) -> (made: PatternLetter)
        ensures
            made.letter == self.wrapped(),
            made.letter_type == LetterType::Gray,
    ;
}

impl WrapLetter for char {
    open spec fn wrapped(self) -> char {
        self
    }

    fn green(self) -> (made: PatternLetter) {
        PatternLetter::green(self)
    }

    fn yellow(self) -> (made: PatternLetter) {
        PatternLetter::yellow(self)
    }

    fn gray(self) -> (made: PatternLetter) {
        PatternLetter::gray(self)
    }
}

/// The letters of a pattern: the guess that it judges.
pub open spec fn letters(pattern: Seq<PatternLetter>) -> Seq<char> {
    pattern.map_values(|l: PatternLetter| l.letter)
}

/// The verdicts of a pattern.
pub open spec fn verdicts(pattern: Seq<PatternLetter>) -> Seq<engine::LetterType> {
    pattern.map_values(|l: PatternLetter| verdict_of(l.letter_type))
}

/// The pattern of the given letters and verdicts.
pub open spec fn painted(guess: Seq<char>, marks: Seq<engine::LetterType>) -> Seq<PatternLetter> {
    Seq::new(guess.len(), |i: int| paint(guess[i], marks[i]))
}

/// A letter in the colour of its verdict.
pub open spec fn paint(letter: char, mark: engine::LetterType) -> PatternLetter {
    (PatternLetter { letter_type: color_of(mark), letter })
}

/// Whether a word, as the answer, gives the guess of the pattern exactly
/// the pattern's colours.
pub open spec fn fits(word: Seq<char>, pattern: Seq<PatternLetter>) -> bool {
    consistent(word, verdicts(pattern), letters(pattern))
}

/// Puts letters and verdicts together as a pattern.
pub fn join<const N: usize>(guess: &[char; N], marks: &[engine::LetterType; N]) -> (pattern: [PatternLetter;
    N])
    ensures
        pattern@ == painted(guess@, marks@),
        letters(pattern@) == guess@,
        verdicts(pattern@) == marks@,
{
    let mut pattern = [PatternLetter { letter_type: LetterType::Gray, letter: 'a' };N];
    let mut i: usize = 0;
    while i < N
        invariant
            i <= N,
            guess@.len() == N,
            marks@.len() == N,
            forall|j: int| 0 <= j < i ==> pattern@[j] == painted(guess@, marks@)[j],
        decreases N - i,
    {
        let entry = PatternLetter { letter_type: LetterType::of(marks[i]), letter: guess[i] };
        assert(entry == paint(guess@[i as int], marks@[i as int]));
        pattern[i] = entry;
        assert(pattern@[i as int] == entry);
        i += 1;
    }
    assert(pattern@ =~= painted(guess@, marks@));
    assert(letters(pattern@) =~= guess@);
    assert(verdicts(pattern@) =~= marks@);
    pattern
}

/// Takes a pattern apart into its letters and its verdicts.
pub fn split<const N: usize>(pattern: &[PatternLetter; N]) -> (parts: (
    [char; N],
    [engine::LetterType; N],
))
    ensures
        parts.0@ == letters(pattern@),
        parts.1@ == verdicts(pattern@),
{
    let mut guess = ['a';N];
    let mut marks = [engine::LetterType::Absent;N];
    let mut i: usize = 0;
    while i < N
        invariant
            i <= N,
            forall|j: int| 0 <= j < i ==> guess@[j] == pattern@[j].letter,
            forall|j: int| 0 <= j < i ==> marks@[j] == verdict_of(pattern@[j].letter_type),
        decreases N - i,
    {
        guess[i] = pattern[i].letter;
        marks[i] = pattern[i].letter_type.verdict();
        i += 1;
    }
    assert(guess@ =~= letters(pattern@));
    assert(marks@ =~= verdicts(pattern@));
    (guess, marks)
}

/// A word of `N` letters.
#[derive(Clone, Copy, Debug, PartialEq, Eq, PartialOrd, Ord, Hash)]
pub struct Word<const N: usize> {
    pub word: [char; N],
}

impl<const N: usize> View for Word<N> {
    type V = Seq<char>;

    open spec fn view(&self) -> Seq<char> {
        self.word@
    }
}

impl<const N: usize> Word<N> {
    pub fn new(word: [char; N]) -> (made: Self)
        ensures
            made@ == word@,
    {
        Self { word }
    }

    /// Whether this word, as the answer, gives the guess of the pattern
    /// exactly the pattern's colours.
    pub fn matches(&self, pattern: &Pattern<N>) -> (agrees: bool)
        ensures
            agrees == fits(self@, pattern@),
    {
        let (guess, marks) = split(&pattern.pattern);
        engine::matches(&self.word, &marks, &guess)
    }

    /// The letters of the word.
    pub fn iter(&self) -> (letters: &[char; N])
        ensures
            letters@ == self@,
    {
        &self.word
    }

    /// Whether two words have the same letters.
    pub fn same(&self, other: &Self) -> (yes: bool)
        ensures
            yes == (self@ == other@),
    {
        let mut i: usize = 0;
        while i < N
            invariant
                i <= N,
                forall|j: int| 0 <= j < i ==> self@[j] == other@[j],
            decreases N - i,
        {
            if self.word[i] != other.word[i] {
                return false;
            }
            i += 1;
        }
        assert(self@ =~= other@);
        true
    }

    /// Reads a word of exactly `N` letters.
    pub fn parse(text: &str) -> (word: Result<Self, IteratorIntoArrayError>)
        ensures
            match word {
                Ok(w) => word_of_text(text@, N as nat) == Some(w@),
                Err(_) => word_of_text(text@, N as nat) is None,
            },
    {
        match read_letters::<N>(text) {
            Ok(word) => Ok(Self { word }),
            Err(e) => Err(e),
        }
    }

    /// The word as a text.
    pub fn to_string(&self) -> (text: String)
        ensures
            text@ == text_of_word(self@),
    {
        write_letters(&self.word)
    }
}

impl<const N: usize> std::str::FromStr for Word<N> {
    type Err = IteratorIntoArrayError;

    /// Reads a word of exactly `N` letters.
    fn from_str(s: &str) -> (word: Result<Self, Self::Err>)
        ensures
            match word {
                Ok(w) => word_of_text(s@, N as nat) == Some(w@),
                Err(_) => word_of_text(s@, N as nat) is None,
            },
    {
        Self::parse(s)
    }
}

/// The colours of a guess, letter by letter.
#[derive(Clone, Copy, Debug, PartialEq, Eq)]
pub struct Pattern<const N: usize> {
    pub pattern: [PatternLetter; N],
}

impl<const N: usize> View for Pattern<N> {
    type V = Seq<PatternLetter>;

    open spec fn view(&self) -> Seq<PatternLetter> {
        self.pattern@
    }
}

/// The pattern that a word and a text of colour codes describe, if the word
/// has `n` letters and the text `n` codes.
pub open spec fn described(word: Seq<char>, descr: Seq<char>, n: nat) -> Option<Seq<PatternLetter>> {
    if word_of_text(word, n) is Some && descr.len() == n {
        Some(painted(word, descr.map_values(|c: char| verdict_of_code(c))))
    } else {
        None
    }
}

impl<const N: usize> Pattern<N> {
    pub fn new(pattern: [PatternLetter; N]) -> (made: Self)
        ensures
            made@ == pattern@,
    {
        Self { pattern }
    }

    /// Reads a pattern from a guess word and its colour codes, letter by
    /// letter: `g` or `1` for green, `y` or `2` for yellow, anything else
    /// for gray. Both texts must have exactly `N` characters, and the word
    /// must be made of letters.
    pub fn from_description(word: &str, descr: &str) -> (pattern: Result<
        Pattern<N>,
        IteratorIntoArrayError,
    >)
        ensures
            match pattern {
                Ok(p) => described(word@, descr@, N as nat) == Some(p@),
                Err(_) => described(word@, descr@, N as nat) is None,
            },
    {
        match read_letters::<N>(word) {
            Ok(guess) => match read_colors::<N>(descr) {
                Ok(marks) => Ok(Self { pattern: join(&guess, &marks) }),
                Err(e) => Err(e),
            },
            Err(e) => Err(e),
        }
    }

    /// The colours that `guess` earns against `answer`.
    pub fn from_guess(guess: &Word<N>, answer: &Word<N>) -> (pattern: Self)
        ensures
            pattern@ == painted(guess@, feedback(guess@, answer@)),
            letters(pattern@) == guess@,
            verdicts(pattern@) == feedback(guess@, answer@),
    {
        let marks = engine::from_guess(&guess.word, &answer.word);
        Self { pattern: join(&guess.word, &marks) }
    }

    /// The colours that `guess` earns against `answer`.
    pub fn from_guess2(guess: &Word<N>, answer: &Word<N>) -> (pattern: Self)
        ensures
            pattern@ == painted(guess@, feedback(guess@, answer@)),
            letters(pattern@) == guess@,
            verdicts(pattern@) == feedback(guess@, answer@),
    {
        Self::from_guess(guess, answer)
    }

    /// Whether the word, as the answer, gives the guess of this pattern
    /// exactly its colours.
    pub fn match_word(&self, word: &Word<N>) -> (agrees: bool)
        ensures
            agrees == fits(word@, self@),
    {
        word.matches(self)
    }

    /// The words that match the pattern, in their order.
    pub fn filter_words(&self, words: &[Word<N>]) -> (kept: Vec<Word<N>>)
        ensures
            kept@ == words@.filter(|w: Word<N>| fits(w@, self@)),
    {
        let mut kept: Vec<Word<N>> = Vec::new();
        let mut i: usize = 0;
        let ghost keep = |w: Word<N>| fits(w@, self@);
        proof {
            reveal(Seq::filter);
            assert(words@.take(0) =~= Seq::<Word<N>>::empty());
        }
        while i < words.len()
            invariant
                i <= words@.len(),
                keep == |w: Word<N>| fits(w@, self@),
                kept@ == words@.take(i as int).filter(keep),
            decreases words@.len() - i,
        {
            proof {
                reveal(Seq::filter);
                assert(words@.take(i as int + 1).drop_last() =~= words@.take(i as int));
            }
            if self.match_word(&words[i]) {
                kept.push(words[i]);
            }
            i += 1;
        }
        proof {
            assert(words@.take(words@.len() as int) =~= words@);
        }
        kept
    }

    /// The letters of the pattern with their colours.
    pub fn iter(&self) -> (letters: &[PatternLetter; N])
        ensures
            letters@ == self@,
    {
        &self.pattern
    }

    /// Works out the pattern of each valid guess against each possible
    /// answer.
    pub fn prepare_all(valid_guesses: &[Word<N>], possible_answers: &[Word<N>]) -> (cache:
        PatternCache<N>)
        requires
            valid_guesses@.len() * possible_answers@.len() <= usize::MAX,
        ensures
            cache.filled(),
            cache.guesses@ == valid_guesses@,
            cache.answers@ == possible_answers@,
    {
        prepare_patterns(valid_guesses, possible_answers)
    }
}

} // verus!
