//! Words and letter-carrying patterns, described colours first.

use crate::engine;
use crate::engine::feedback;
use crate::guesser::cells;
use crate::guesser_family::backlog::lemma_split;
use crate::guesser_family::lemma_cell;
use crate::words::{painted, described, fits, join, letters, split, verdicts};
use crate::words_family::words_1::{
    read_colors, read_letters, text_of_word, word_of_text, write_letters,
};
use crate::IteratorIntoArrayError;
use vstd::prelude::*;

pub use crate::words::PatternLetter;

verus! {

/// A word of `N` letters.
#[derive(Clone, Copy, Debug, PartialEq, Eq, PartialOrd, Ord, Hash)]
pub struct Word1<const N: usize> {
    pub word: [char; N],
}

impl<const N: usize> View for Word1<N> {
    type V = Seq<char>;

    open spec fn view(&self) -> Seq<char> {
        self.word@
    }
}

impl<const N: usize> Word1<N> {
    pub fn new(word: [char; N]) -> (made: Self)
        ensures
            made@ == word@,
    {
        Self { word }
    }

    /// Whether this word, as the answer, gives the guess of the pattern
    /// exactly the pattern's colours.
    pub fn matches(&self, pattern: &Pattern1<N>) -> (agrees: bool)
        ensures
            agrees == fits(self@, pattern@),
    {
        let (guess, marks) = split(&pattern.pattern);
        engine::matches(&self.word, &marks, &guess)
    }

    /// The letters of the word.
    pub fn iter(&self) -> (letters: &[char; N])
        ensures
            letters@ == self@,
    {
        &self.word
    }

    /// Reads a word of exactly `N` letters.
    pub fn parse(text: &str) -> (word: Result<Self, IteratorIntoArrayError>)
        ensures
            match word {
                Ok(w) => word_of_text(text@, N as nat) == Some(w@),
                Err(_) => word_of_text(text@, N as nat) is None,
            },
    {
        match read_letters::<N>(text) {
            Ok(word) => Ok(Self { word }),
            Err(e) => Err(e),
        }
    }

    /// The word as a text.
    pub fn to_string(&self) -> (text: String)
        ensures
            text@ == text_of_word(self@),
    {
        write_letters(&self.word)
    }
}

impl<const N: usize> std::str::FromStr for Word1<N> {
    type Err = IteratorIntoArrayError;

    /// Reads a word of exactly `N` letters.
    fn from_str(s: &str) -> (word: Result<Self, Self::Err>)
        ensures
            match word {
                Ok(w) => word_of_text(s@, N as nat) == Some(w@),
                Err(_) => word_of_text(s@, N as nat) is None,
            },
    {
        Self::parse(s)
    }
}

/// The colours of a guess, letter by letter.
#[derive(Clone, Copy, Debug, PartialEq, Eq)]
pub struct Pattern1<const N: usize> {
    pub pattern: [PatternLetter; N],
}

impl<const N: usize> View for Pattern1<N> {
    type V = Seq<PatternLetter>;

    open spec fn view(&self) -> Seq<PatternLetter> {
        self.pattern@
    }
}

impl<const N: usize> Pattern1<N> {
    pub fn new(pattern: [PatternLetter; N]) -> (made: Self)
        ensures
            made@ == pattern@,
    {
        Self { pattern }
    }

    /// Reads a pattern from colour codes and the guess word that they
    /// judge. Both texts must have exactly `N` characters, and the word must
    /// be made of letters.
    pub fn from_description(pattern_colors: &str, guess: &str) -> (pattern: Result<
        Pattern1<N>,
        IteratorIntoArrayError,
    >)
        ensures
            match pattern {
                Ok(p) => described(guess@, pattern_colors@, N as nat) == Some(p@),
                Err(_) => described(guess@, pattern_colors@, N as nat) is None,
            },
    {
        match read_letters::<N>(guess) {
            Ok(word) => match read_colors::<N>(pattern_colors) {
                Ok(marks) => Ok(Self { pattern: join(&word, &marks) }),
                Err(e) => Err(e),
            },
            Err(e) => Err(e),
        }
    }

    /// The colours that `guess` earns against `answer`.
    pub fn from_guess(guess: &Word1<N>, answer: &Word1<N>) -> (pattern: Self)
        ensures
            pattern@ == painted(guess@, feedback(guess@, answer@)),
            letters(pattern@) == guess@,
            verdicts(pattern@) == feedback(guess@, answer@),
    {
        let marks = engine::from_guess(&guess.word, &answer.word);
        Self { pattern: join(&guess.word, &marks) }
    }

    /// The words that match the pattern, in their order.
    pub fn filter_words(&self, words: &[Word1<N>]) -> (kept: Vec<Word1<N>>)
        ensures
            kept@ == words@.filter(|w: Word1<N>| fits(w@, self@)),
    {
        let mut kept: Vec<Word1<N>> = Vec::new();
        let mut i: usize = 0;
        let ghost keep = |w: Word1<N>| fits(w@, self@);
        proof {
            reveal(Seq::filter);
            assert(words@.take(0) =~= Seq::<Word1<N>>::empty());
        }
        while i < words.len()
            invariant
                i <= words@.len(),
                keep == |w: Word1<N>| fits(w@, self@),
                kept@ == words@.take(i as int).filter(keep),
            decreases words@.len() - i,
        {
            proof {
                reveal(Seq::filter);
                assert(words@.take(i as int + 1).drop_last() =~= words@.take(i as int));
            }
            if words[i].matches(self) {
                kept.push(words[i]);
            }
            i += 1;
        }
        proof {
            assert(words@.take(words@.len() as int) =~= words@);
        }
        kept
    }

    /// The letters of the pattern with their colours.
    pub fn iter(&self) -> (letters: &[PatternLetter; N])
        ensures
            letters@ == self@,
    {
        &self.pattern
    }

    /// Works out the pattern of each valid guess against each possible
    /// answer.
    pub fn prepare_all(valid_guesses: &[Word1<N>], possible_answers: &[Word1<N>]) -> (cache:
        PatternCache<N>)
        requires
            valid_guesses@.len() * possible_answers@.len() <= usize::MAX,
        ensures
            cache.filled(),
            cache.guesses@ == valid_guesses@,
            cache.answers@ == possible_answers@,
    {
        let width = possible_answers.len();
        let all = cells(valid_guesses.len(), width);
        let mut patterns: Vec<Pattern1<N>> = Vec::new();
        let mut guesses: Vec<Word1<N>> = Vec::new();
        let mut answers: Vec<Word1<N>> = Vec::new();
        let mut c: usize = 0;
        while c < all.len()
            invariant
                c <= all@.len(),
                width == possible_answers@.len(),
                all@.len() == valid_guesses@.len() * width,
                patterns@.len() == c,
                forall|i: int|
                    0 <= i < all@.len() ==> (#[trigger] all@[i]).0 < valid_guesses@.len()
                        && all@[i].1 < width && all@[i].0 * width + all@[i].1 == i,
                forall|i: int|
                    0 <= i < c ==> (#[trigger] patterns@[i])@ == painted(
                        valid_guesses@[all@[i].0 as int]@,
                        feedback(
                            valid_guesses@[all@[i].0 as int]@,
                            possible_answers@[all@[i].1 as int]@,
                        ),
                    ),
            decreases all@.len() - c,
        {
            let (g, a) = all[c];
            patterns.push(Pattern1::from_guess(&valid_guesses[g], &possible_answers[a]));
            c += 1;
        }
        let mut k: usize = 0;
        while k < valid_guesses.len()
            invariant
                k <= valid_guesses@.len(),
                guesses@ == valid_guesses@.take(k as int),
            decreases valid_guesses@.len() - k,
        {
            guesses.push(valid_guesses[k]);
            assert(valid_guesses@.take(k as int).push(valid_guesses@[k as int])
                =~= valid_guesses@.take(k as int + 1));
            k += 1;
        }
        k = 0;
        while k < possible_answers.len()
            invariant
                k <= possible_answers@.len(),
                answers@ == possible_answers@.take(k as int),
            decreases possible_answers@.len() - k,
        {
            answers.push(possible_answers[k]);
            assert(possible_answers@.take(k as int).push(possible_answers@[k as int])
                =~= possible_answers@.take(k as int + 1));
            k += 1;
        }
        proof {
            assert(valid_guesses@.take(valid_guesses@.len() as int) =~= valid_guesses@);
            assert(possible_answers@.take(possible_answers@.len() as int) =~= possible_answers@);
            assert forall|g: int, a: int|
                0 <= g < valid_guesses@.len() && 0 <= a < width implies (#[trigger] patterns@[g
                * width + a])@ == painted(
                valid_guesses@[g]@,
                feedback(valid_guesses@[g]@, possible_answers@[a]@),
            ) by {
                lemma_cell(g, a, valid_guesses@.len() as int, width as int);
                let at = all@[g * width + a];
                lemma_split(at.0 as int, at.1 as int, g, a, width as int);
            }
        }
        PatternCache { guesses, answers, patterns }
    }
}

/// The patterns of each of some guesses against each of some answers, row
/// by row: the row of a guess holds its pattern against each answer.
pub struct PatternCache<const N: usize> {
    pub guesses: Vec<Word1<N>>,
    pub answers: Vec<Word1<N>>,
    pub patterns: Vec<Pattern1<N>>,
}

impl<const N: usize> PatternCache<N> {
    /// The cache holds the pattern of each of its guesses against each of
    /// its answers.
    pub open spec fn filled(&self) -> bool {
        &&& self.guesses@.len() * self.answers@.len() <= usize::MAX
        &&& self.patterns@.len() == self.guesses@.len() * self.answers@.len()
        &&& forall|g: int, a: int|
            0 <= g < self.guesses@.len() && 0 <= a < self.answers@.len()
                ==> (#[trigger] self.patterns@[g * self.answers@.len() + a])@ == painted(
                self.guesses@[g]@,
                feedback(self.guesses@[g]@, self.answers@[a]@),
            )
    }

    /// The pattern of the guess at place `guess` against the answer at place
    /// `answer`.
    pub fn get(&self, guess: usize, answer: usize) -> (pattern: Pattern1<N>)
        requires
            self.filled(),
            guess < self.guesses@.len(),
            answer < self.answers@.len(),
        ensures
            pattern@ == painted(
                self.guesses@[guess as int]@,
                feedback(self.guesses@[guess as int]@, self.answers@[answer as int]@),
            ),
    {
        proof {
            lemma_cell(
                guess as int,
                answer as int,
                self.guesses@.len() as int,
                self.answers@.len() as int,
            );
        }
        self.patterns[guess * self.answers.len() + answer]
    }
}

} // verus!
