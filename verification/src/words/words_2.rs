//! Words, and patterns of colours alone: the guess is named beside them.

use crate::engine;
use crate::engine::{consistent, feedback};
use crate::words::{color_of, verdict_of, LetterType};
use crate::words_family::words_1::{
    read_colors, read_letters, text_of_word, verdict_of_code, word_of_text, write_letters,
};
use crate::IteratorIntoArrayError;
use vstd::prelude::*;

verus! {

/// The verdicts that colours stand for.
pub open spec fn marks_of(colors: Seq<LetterType>) -> Seq<engine::LetterType> {
    colors.map_values(|c: LetterType| verdict_of(c))
}

/// The colours that verdicts are shown in.
pub open spec fn colors_of(marks: Seq<engine::LetterType>) -> Seq<LetterType> {
    marks.map_values(|v: engine::LetterType| color_of(v))
}

/// Turns colours into verdicts.
pub fn to_marks<const N: usize>(colors: &[LetterType; N]) -> (marks: [engine::LetterType; N])
    ensures
        marks@ == marks_of(colors@),
{
    let mut marks = [engine::LetterType::Absent;N];
    let mut i: usize = 0;
    while i < N
        invariant
            i <= N,
            forall|j: int| 0 <= j < i ==> marks@[j] == verdict_of(colors@[j]),
        decreases N - i,
    {
        marks[i] = colors[i].verdict();
        i += 1;
    }
    assert(marks@ =~= marks_of(colors@));
    marks
}

/// Turns verdicts into colours.
pub fn to_colors<const N: usize>(marks: &[engine::LetterType; N]) -> (colors: [LetterType; N])
    ensures
        colors@ == colors_of(marks@),
        marks_of(colors@) == marks@,
{
    let mut colors = [LetterType::Gray;N];
    let mut i: usize = 0;
    while i < N
        invariant
            i <= N,
            forall|j: int| 0 <= j < i ==> colors@[j] == color_of(marks@[j]),
        decreases N - i,
    {
        colors[i] = LetterType::of(marks[i]);
        i += 1;
    }
    assert(colors@ =~= colors_of(marks@));
    assert(marks_of(colors@) =~= marks@);
    colors
}

/// A word of `N` letters.
#[derive(Clone, Copy, Debug, PartialEq, Eq, PartialOrd, Ord, Hash)]
pub struct Word2<const N: usize> {
    pub word: [char; N],
}

impl<const N: usize> View for Word2<N> {
    type V = Seq<char>;

    open spec fn view(&self) -> Seq<char> {
        self.word@
    }
}

impl<const N: usize> Word2<N> {
    pub fn new(word: [char; N]) -> (made: Self)
        ensures
            made@ == word@,
    {
        Self { word }
    }

    /// Whether this word, as the answer, gives `guess` exactly `pattern`.
    pub fn matches(&self, pattern: &Pattern2<N>, guess: &Word2<N>) -> (agrees: bool)
        ensures
            agrees == consistent(self@, marks_of(pattern@), guess@),
    {
        let marks = to_marks(&pattern.pattern);
        engine::matches(&self.word, &marks, &guess.word)
    }

    /// The letters of the word.
    pub fn iter(&self) -> (letters: &[char; N])
        ensures
            letters@ == self@,
    {
        &self.word
    }

    /// Reads a word of exactly `N` letters.
    pub fn parse(text: &str) -> (word: Result<Self, IteratorIntoArrayError>)
        ensures
            match word {
                Ok(w) => word_of_text(text@, N as nat) == Some(w@),
                Err(_) => word_of_text(text@, N as nat) is None,
            },
    {
        match read_letters::<N>(text) {
            Ok(word) => Ok(Self { word }),
            Err(e) => Err(e),
        }
    }

    /// The word as a text.
    pub fn to_string(&self) -> (text: String)
        ensures
            text@ == text_of_word(self@),
    {
        write_letters(&self.word)
    }
}

impl<const N: usize> std::str::FromStr for Word2<N> {
    type Err = IteratorIntoArrayError;

    /// Reads a word of exactly `N` letters.
    fn from_str(s: &str) -> (word: Result<Self, Self::Err>)
        ensures
            match word {
                Ok(w) => word_of_text(s@, N as nat) == Some(w@),
                Err(_) => word_of_text(s@, N as nat) is None,
            },
    {
        Self::parse(s)
    }
}

/// The colours of a guess.
#[derive(Clone, Copy, Debug, PartialEq, Eq)]
pub struct Pattern2<const N: usize> {
    pub pattern: [LetterType; N],
}

impl<const N: usize> View for Pattern2<N> {
    type V = Seq<LetterType>;

    open spec fn view(&self) -> Seq<LetterType> {
        self.pattern@
    }
}

impl<const N: usize> Pattern2<N> {
    pub fn new(pattern: [LetterType; N]) -> (made: Self)
        ensures
            made@ == pattern@,
    {
        Self { pattern }
    }

    /// The colours that `guess` earns against `answer`.
    pub fn from_guess(guess: &Word2<N>, answer: &Word2<N>) -> (pattern: Self)
        ensures
            pattern@ == colors_of(feedback(guess@, answer@)),
            marks_of(pattern@) == feedback(guess@, answer@),
    {
        let marks = engine::from_guess(&guess.word, &answer.word);
        Self { pattern: to_colors(&marks) }
    }

    /// The words that, as the answer, give `guess` this pattern, in their
    /// order.
    pub fn filter_words(&self, guess: &Word2<N>, words: &[Word2<N>]) -> (kept: Vec<Word2<N>>)
        ensures
            kept@ == words@.filter(|w: Word2<N>| consistent(w@, marks_of(self@), guess@)),
    {
        let mut kept: Vec<Word2<N>> = Vec::new();
        let mut i: usize = 0;
        let ghost keep = |w: Word2<N>| consistent(w@, marks_of(self@), guess@);
        proof {
            reveal(Seq::filter);
            assert(words@.take(0) =~= Seq::<Word2<N>>::empty());
        }
        while i < words.len()
            invariant
                i <= words@.len(),
                keep == |w: Word2<N>| consistent(w@, marks_of(self@), guess@),
                kept@ == words@.take(i as int).filter(keep),
            decreases words@.len() - i,
        {
            proof {
                reveal(Seq::filter);
                assert(words@.take(i as int + 1).drop_last() =~= words@.take(i as int));
            }
            if words[i].matches(self, guess) {
                kept.push(words[i]);
            }
            i += 1;
        }
        proof {
            assert(words@.take(words@.len() as int) =~= words@);
        }
        kept
    }

    /// The colours of the pattern.
    pub fn iter(&self) -> (colors: &[LetterType; N])
        ensures
            colors@ == self@,
    {
        &self.pattern
    }

    /// Reads a pattern of exactly `N` colour codes.
    pub fn parse(text: &str) -> (pattern: Result<Self, IteratorIntoArrayError>)
        ensures
            pattern is Ok <==> text@.len() == N,
            pattern is Ok ==> pattern->Ok_0@ == colors_of(
                text@.map_values(|c: char| verdict_of_code(c)),
            ),
    {
        match read_colors::<N>(text) {
            Ok(marks) => Ok(Self { pattern: to_colors(&marks) }),
            Err(e) => Err(e),
        }
    }
}

impl<const N: usize> std::str::FromStr for Pattern2<N> {
    type Err = IteratorIntoArrayError;

    /// Reads a pattern of exactly `N` colour codes: `g` or `1` for green, `y`
    /// or `2` for yellow, anything else for gray.
    fn from_str(s: &str) -> (pattern: Result<Self, Self::Err>)
        ensures
            pattern is Ok <==> s@.len() == N,
            pattern is Ok ==> pattern->Ok_0@ == colors_of(
                s@.map_values(|c: char| verdict_of_code(c)),
            ),
    {
        Self::parse(s)
    }
}

} // verus!
