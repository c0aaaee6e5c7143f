//! Words as arrays of letters, patterns as arrays of verdicts.

use crate::engine;
use crate::engine::{consistent, feedback, LetterType};
use crate::words_family::{Family, PatternTrait, WordTrait};
use crate::IteratorIntoArrayError;
use vstd::prelude::*;

verus! {

/// What the standard library's `char::is_alphabetic` says of a character.
pub uninterp spec fn is_letter(c: char) -> bool;

/// `char::is_alphabetic`: whether the character has Unicode's Alphabetic
/// property. The result depends on the character alone.
#[verifier::external_body]
pub(crate) fn letter(c: char) -> (yes: bool)
    ensures
        yes == is_letter(c),
{
    c.is_alphabetic()
}

/// `String::push`: appends one character to the end of the text.
#[verifier::external_body]
pub(crate) fn push_char(text: &mut String, c: char)
    ensures
        final(text)@ == old(text)@.push(c),
{
    text.push(c)
}

/// Whether every character of the text is a letter.
pub open spec fn all_letters(text: Seq<char>) -> bool {
    forall|i: int| 0 <= i < text.len() ==> is_letter(#[trigger] text[i])
}

/// The verdict that a colour code stands for: `g` or `1` is correct, `y` or
/// `2` is misplaced, anything else is absent.
pub open spec fn verdict_of_code(color: char) -> LetterType {
    if color == 'g' || color == '1' {
        LetterType::Correct
    } else if color == 'y' || color == '2' {
        LetterType::Misplaced
    } else {
        LetterType::Absent
    }
}

/// The colour code that a verdict is written as.
pub open spec fn code_of_verdict(verdict: LetterType) -> char {
    match verdict {
        LetterType::Correct => 'g',
        LetterType::Misplaced => 'y',
        LetterType::Absent => '.',
    }
}

/// Reads one colour code.
pub fn read_color(color: char) -> (verdict: LetterType)
    ensures
        verdict == verdict_of_code(color),
{
    if color == 'g' || color == '1' {
        LetterType::Correct
    } else if color == 'y' || color == '2' {
        LetterType::Misplaced
    } else {
        LetterType::Absent
    }
}

/// The word that a text is read as: the text itself, if it has `n` characters
/// and all of them are letters.
pub open spec fn word_of_text(text: Seq<char>, n: nat) -> Option<Seq<char>> {
    if text.len() == n && all_letters(text) {
        Some(text)
    } else {
        None
    }
}

/// The text that a word is written as: its letters.
pub open spec fn text_of_word(word: Seq<char>) -> Seq<char> {
    word
}

/// Reads exactly `N` letters from a text. It fails on a text of another
/// length, and on one that holds a character that is no letter.
pub fn read_letters<const N: usize>(text: &str) -> (letters: Result<[char; N], IteratorIntoArrayError>)
    ensures
        letters is Ok <==> text@.len() == N && all_letters(text@),
        letters is Ok ==> letters->Ok_0@ == text@,
{
    if text.unicode_len() != N {
        return Err(IteratorIntoArrayError);
    }
    let mut letters = ['a';N];
    let mut i: usize = 0;
    while i < N
        invariant
            i <= N,
            text@.len() == N,
            forall|j: int| 0 <= j < i ==> letters@[j] == text@[j] && is_letter(text@[j]),
        decreases N - i,
    {
        let c = text.get_char(i);
        if !letter(c) {
            return Err(IteratorIntoArrayError);
        }
        letters[i] = c;
        i += 1;
    }
    assert(letters@ =~= text@);
    Ok(letters)
}

/// Reads exactly `N` colour codes from a text. It fails on a text of another
/// length.
pub fn read_colors<const N: usize>(text: &str) -> (colors: Result<
    [LetterType; N],
    IteratorIntoArrayError,
>)
    ensures
        colors is Ok <==> text@.len() == N,
        colors is Ok ==> colors->Ok_0@ == text@.map_values(|c: char| verdict_of_code(c)),
{
    if text.unicode_len() != N {
        return Err(IteratorIntoArrayError);
    }
    let mut colors = [LetterType::Absent;N];
    let mut i: usize = 0;
    while i < N
        invariant
            i <= N,
            text@.len() == N,
            forall|j: int| 0 <= j < i ==> colors@[j] == verdict_of_code(text@[j]),
        decreases N - i,
    {
        colors[i] = read_color(text.get_char(i));
        i += 1;
    }
    assert(colors@ =~= text@.map_values(|c: char| verdict_of_code(c)));
    Ok(colors)
}

/// Writes letters out as a text.
pub fn write_letters<const N: usize>(letters: &[char; N]) -> (text: String)
    ensures
        text@ == letters@,
{
    let mut text = String::new();
    let mut i: usize = 0;
    while i < N
        invariant
            i <= N,
            text@ == letters@.take(i as int),
        decreases N - i,
    {
        push_char(&mut text, letters[i]);
        assert(letters@.take(i as int).push(letters@[i as int]) =~= letters@.take(i as int + 1));
        i += 1;
    }
    assert(letters@.take(N as int) =~= letters@);
    text
}

/// Writes verdicts out as colour codes.
pub fn write_colors<const N: usize>(colors: &[LetterType; N]) -> (text: String)
    ensures
        text@ == colors@.map_values(|v: LetterType| code_of_verdict(v)),
{
    let mut text = String::new();
    let mut i: usize = 0;
    while i < N
        invariant
            i <= N,
            text@ == colors@.map_values(|v: LetterType| code_of_verdict(v)).take(i as int),
        decreases N - i,
    {
        let c = match colors[i] {
            LetterType::Correct => 'g',
            LetterType::Misplaced => 'y',
            LetterType::Absent => '.',
        };
        push_char(&mut text, c);
        assert(colors@.map_values(|v: LetterType| code_of_verdict(v)).take(i as int).push(c)
            =~= colors@.map_values(|v: LetterType| code_of_verdict(v)).take(i as int + 1));
        i += 1;
    }
    assert(colors@.map_values(|v: LetterType| code_of_verdict(v)).take(N as int)
        =~= colors@.map_values(|v: LetterType| code_of_verdict(v)));
    text
}

/// The family of words and patterns of length `N`.
pub struct Family1<const N: usize>;

impl<const N: usize> Family for Family1<N> {
    type Word = Word1<N>;

    type Pattern = Pattern1<N>;

    fn from_guess(guess: &Word1<N>, answer: &Word1<N>) -> (pattern: Pattern1<N>) {
        Pattern1::from_guess(guess, answer)
    }

    fn matches(candidate: &Word1<N>, pattern: &Pattern1<N>, guess: &Word1<N>) -> (agrees: bool) {
        candidate.matches(pattern, guess)
    }
}

impl<const N: usize> WordTrait for Word1<N> {
    type Data = [char; N];

    open spec fn letters(&self) -> Seq<char> {
        self@
    }

    open spec fn spelled(word: [char; N]) -> Seq<char> {
        word@
    }

    fn new(word: [char; N]) -> (made: Self) {
        Self { data: word }
    }

    fn same(&self, other: &Self) -> (yes: bool) {
        Word1::same(self, other)
    }
}

impl<const N: usize> PatternTrait for Pattern1<N> {
    type Data = [LetterType; N];

    open spec fn verdicts(&self) -> Seq<LetterType> {
        self@
    }

    open spec fn marked(pattern: [LetterType; N]) -> Seq<LetterType> {
        pattern@
    }

    fn new(pattern: [LetterType; N]) -> (made: Self) {
        Self { data: pattern }
    }
}

/// A word of `N` letters.
#[derive(Clone, Copy, Debug, PartialEq, Eq, PartialOrd, Ord, Hash)]
pub struct Word1<const N: usize> {
    pub data: [char; N],
}

impl<const N: usize> View for Word1<N> {
    type V = Seq<char>;

    open spec fn view(&self) -> Seq<char> {
        self.data@
    }
}

impl<const N: usize> Word1<N> {
    /// A word of the given letters.
    pub fn new(word: [char; N]) -> (made: Self)
        ensures
            made@ == word@,
    {
        Self { data: word }
    }

    /// The letters of the word.
    pub fn iter(&self) -> (letters: &[char; N])
        ensures
            letters@ == self@,
    {
        &self.data
    }

    /// Whether this word, as the answer, gives `guess` exactly `pattern`.
    pub fn matches(&self, pattern: &Pattern1<N>, guess: &Self) -> (agrees: bool)
        ensures
            agrees == consistent(self@, pattern@, guess@),
    {
        engine::matches(&self.data, &pattern.data, &guess.data)
    }

    /// Reads a word of exactly `N` letters.
    pub fn parse(text: &str) -> (word: Result<Self, IteratorIntoArrayError>)
        ensures
            match word {
                Ok(w) => word_of_text(text@, N as nat) == Some(w@),
                Err(_) => word_of_text(text@, N as nat) is None,
            },
    {
        match read_letters::<N>(text) {
            Ok(data) => Ok(Self { data }),
            Err(e) => Err(e),
        }
    }

    /// The word as a text.
    pub fn to_string(&self) -> (text: String)
        ensures
            text@ == text_of_word(self@),
    {
        write_letters(&self.data)
    }

    /// Whether two words have the same letters.
    pub fn same(&self, other: &Self) -> (yes: bool)
        ensures
            yes == (self@ == other@),
    {
        let mut i: usize = 0;
        while i < N
            invariant
                i <= N,
                forall|j: int| 0 <= j < i ==> self@[j] == other@[j],
            decreases N - i,
        {
            if self.data[i] != other.data[i] {
                return false;
            }
            i += 1;
        }
        assert(self@ =~= other@);
        true
    }
}

impl<const N: usize> std::str::FromStr for Word1<N> {
    type Err = IteratorIntoArrayError;

    /// Reads a word of exactly `N` letters.
    fn from_str(s: &str) -> (word: Result<Self, Self::Err>)
        ensures
            match word {
                Ok(w) => word_of_text(s@, N as nat) == Some(w@),
                Err(_) => word_of_text(s@, N as nat) is None,
            },
    {
        Self::parse(s)
    }
}

/// The feedback on a guess of `N` letters.
#[derive(Clone, Copy, Debug, PartialEq, Eq)]
pub struct Pattern1<const N: usize> {
    pub data: [LetterType; N],
}

impl<const N: usize> View for Pattern1<N> {
    type V = Seq<LetterType>;

    open spec fn view(&self) -> Seq<LetterType> {
        self.data@
    }
}

impl<const N: usize> Pattern1<N> {
    /// A pattern of the given verdicts.
    pub fn new(pattern: [LetterType; N]) -> (made: Self)
        ensures
            made@ == pattern@,
    {
        Self { data: pattern }
    }

    /// The verdicts of the pattern.
    pub fn iter(&self) -> (verdicts: &[LetterType; N])
        ensures
            verdicts@ == self@,
    {
        &self.data
    }

    /// The feedback that `guess` earns against `answer`.
    pub fn from_guess(guess: &Word1<N>, answer: &Word1<N>) -> (pattern: Self)
        ensures
            pattern@ == feedback(guess@, answer@),
    {
        Self { data: engine::from_guess(&guess.data, &answer.data) }
    }

    /// Reads a pattern of exactly `N` colour codes.
    pub fn parse(text: &str) -> (pattern: Result<Self, IteratorIntoArrayError>)
        ensures
            pattern is Ok <==> text@.len() == N,
            pattern is Ok ==> pattern->Ok_0@ == text@.map_values(|c: char| verdict_of_code(c)),
    {
        match read_colors::<N>(text) {
            Ok(data) => Ok(Self { data }),
            Err(e) => Err(e),
        }
    }

    /// The pattern as colour codes.
    pub fn to_string(&self) -> (text: String)
        ensures
            text@ == self@.map_values(|v: LetterType| code_of_verdict(v)),
    {
        write_colors(&self.data)
    }
}

impl<const N: usize> std::str::FromStr for Pattern1<N> {
    type Err = IteratorIntoArrayError;

    /// Reads a pattern of exactly `N` colour codes: `g` or `1` for correct,
    /// `y` or `2` for misplaced, anything else for absent.
    fn from_str(s: &str) -> (pattern: Result<Self, Self::Err>)
        ensures
            pattern is Ok <==> s@.len() == N,
            pattern is Ok ==> pattern->Ok_0@ == s@.map_values(|c: char| verdict_of_code(c)),
    {
        Self::parse(s)
    }
}

/// A text of `n` letters is read as a word, and that word is written out as
/// the same text.
pub proof fn lemma_word_round_trip(text: Seq<char>, n: nat)
    requires
        text.len() == n,
        all_letters(text),
    ensures
        word_of_text(text, n) is Some,
        text_of_word(word_of_text(text, n)->0) == text,
{
}

} // verus!
