//! Ranking guesses by a bounded lookahead over sets of guesses.

pub mod backlog;
pub mod bfs_guesser;
pub mod bfs_guesser_cached_patterns;
pub mod bfs_guesser_full_cache;
pub mod frontier;
pub mod guess_set;
pub mod ranking;

pub use bfs_guesser::BfsGuesser;
pub use bfs_guesser_cached_patterns::BfsGuesserCachedPatterns;
pub use bfs_guesser_full_cache::BfsGuesserFullCache;

use crate::engine::{code, feedback, lemma_code_injective};
use crate::guesser_family::guess_set::{SearchExhausted, MAX_DEPTH};
use crate::guesser_family::ranking::{all_known, ranking_of};
use crate::guesser_family::bfs_guesser_cached_patterns::PatternToU8;
use crate::words_family::{Family, WordTrait};
use vstd::prelude::*;

verus! {

/// Where the patterns of a search come from: a list of words, and a way to
/// tell whether a guess earns the same feedback against two answers.
pub trait PatternSource {
    /// The words, by index.
    spec fn words(&self) -> Seq<Seq<char>>;

    /// What the source needs to hold of itself.
    spec fn wf(&self) -> bool;

    /// The number of words.
    fn size(&self) -> (n: usize)
        requires
            self.wf(),
        ensures
            n == self.words().len(),
    ;

    /// Whether `guess` earns the same feedback against `answer` and `other`.
    fn same_feedback(&self, guess: usize, answer: usize, other: usize) -> (same: bool)
        requires
            self.wf(),
            guess < self.words().len(),
            answer < self.words().len(),
            other < self.words().len(),
        ensures
            same == alike(self.words(), guess as int, answer as int, other as int),
    ;
}

/// The guess cannot tell the two answers apart.
pub open spec fn alike(words: Seq<Seq<char>>, guess: int, answer: int, other: int) -> bool {
    feedback(words[guess], words[answer]) == feedback(words[guess], words[other])
}

/// The letters of each word of a list.
pub open spec fn letters_of<W: WordTrait>(words: Seq<W>) -> Seq<Seq<char>> {
    words.map_values(|w: W| w.letters())
}

/// No word of the list has more than five letters: the pattern of any two
/// of them fits a byte.
pub open spec fn short<W: WordTrait>(words: Seq<W>) -> bool {
    forall|i: int| 0 <= i < words.len() ==> (#[trigger] words[i]).letters().len() <= 5
}

/// A word list that works every pattern out afresh.
pub struct WordList<'a, F: Family> {
    pub words: &'a [F::Word],
}

impl<'a, F: Family> PatternSource for WordList<'a, F> {
    open spec fn words(&self) -> Seq<Seq<char>> {
        letters_of(self.words@)
    }

    open spec fn wf(&self) -> bool {
        true
    }

    fn size(&self) -> (n: usize) {
        self.words.len()
    }

    fn same_feedback(&self, guess: usize, answer: usize, other: usize) -> (same: bool) {
        let pattern = F::from_guess(&self.words[guess], &self.words[answer]);
        F::matches(&self.words[other], &pattern, &self.words[guess])
    }
}

/// The compact patterns of every guess against every answer of a word list,
/// row by row: the row of a guess holds its pattern against each answer.
pub struct PatternTable<F: Family> {
    pub patterns: Vec<u8>,
    pub words: Vec<F::Word>,
    pub size: usize,
}

impl<F: Family> PatternTable<F> {
    /// The table holds the code of the feedback of each pair of its words.
    pub open spec fn filled(&self) -> bool {
        &&& short(self.words@)
        &&& self.size == self.words@.len()
        &&& self.size * self.size <= usize::MAX
        &&& self.patterns@.len() == self.size * self.size
        &&& forall|g: int, a: int|
            0 <= g < self.size && 0 <= a < self.size ==> #[trigger] self.patterns@[g * self.size
                + a] == code(feedback(self.words@[g].letters(), self.words@[a].letters()))
    }

    /// Works out the table of a word list.
    pub fn new(valid: &[F::Word]) -> (table: Self) where F::Pattern: PatternToU8
        requires
            short(valid@),
            valid@.len() * valid@.len() <= usize::MAX,
        ensures
            table.filled(),
            table.words@ == valid@,
    {
        let size = valid.len();
        let mut patterns: Vec<u8> = Vec::new();
        let mut words: Vec<F::Word> = Vec::new();
        let mut g: usize = 0;
        while g < size
            invariant
                g <= size,
                size == valid@.len(),
                short(valid@),
                words@ == valid@.take(g as int),
                patterns@.len() == g * size,
                forall|x: int, a: int|
                    0 <= x < g && 0 <= a < size ==> #[trigger] patterns@[x * size + a] == code(
                        feedback(valid@[x].letters(), valid@[a].letters()),
                    ),
            decreases size - g,
        {
            let mut a: usize = 0;
            while a < size
                invariant
                    a <= size,
                    g < size,
                    size == valid@.len(),
                    short(valid@),
                    patterns@.len() == g * size + a,
                    forall|x: int, y: int|
                        0 <= x < g && 0 <= y < size ==> #[trigger] patterns@[x * size + y] == code(
                            feedback(valid@[x].letters(), valid@[y].letters()),
                        ),
                    forall|y: int|
                        0 <= y < a ==> #[trigger] patterns@[g * size + y] == code(
                            feedback(valid@[g as int].letters(), valid@[y].letters()),
                        ),
                decreases size - a,
            {
                let ghost before = patterns@;
                let byte = F::from_guess(&valid[g], &valid[a]).as_u8();
                patterns.push(byte);
                proof {
                    assert forall|x: int, y: int|
                        0 <= x < g && 0 <= y < size implies #[trigger] patterns@[x * size + y]
                        == code(
                            feedback(valid@[x].letters(), valid@[y].letters()),
                        ) by {
                        lemma_cell(x, y, g as int, size as int);
                        assert(patterns@[x * size + y] == before[x * size + y]);
                    }
                }
                a += 1;
            }
            words.push(valid[g]);
            proof {
                assert(valid@.take(g as int).push(valid@[g as int]) =~= valid@.take(g as int + 1));
                assert((g + 1) * size == g * size + size) by (nonlinear_arith);
                assert forall|x: int, y: int|
                    0 <= x < g + 1 && 0 <= y < size implies #[trigger] patterns@[x * size + y]
                    == code(
                        feedback(valid@[x].letters(), valid@[y].letters()),
                    ) by {
                    if x == g {
                    }
                }
            }
            g += 1;
        }
        proof {
            assert(valid@.take(size as int) =~= valid@);
        }
        PatternTable { patterns, words, size }
    }

    /// The compact pattern of the guess against the answer.
    pub fn pattern(&self, guess_index: usize, answer_index: usize) -> (byte: u8)
        requires
            self.filled(),
            guess_index < self.size,
            answer_index < self.size,
        ensures
            byte == code(feedback(self.words@[guess_index as int].letters(), self.words@[answer_index as int].letters())),
    {
        proof {
            lemma_cell(
                guess_index as int,
                answer_index as int,
                self.size as int,
                self.size as int,
            );
            assert(guess_index * self.size + answer_index < self.patterns@.len());
        }
        self.patterns[guess_index * self.size + answer_index]
    }
}

/// A cell of a row before row `rows` lies before the end of that many rows.
pub proof fn lemma_cell(x: int, y: int, rows: int, width: int)
    requires
        0 <= x < rows,
        0 <= y < width,
    ensures
        0 <= x * width + y < rows * width,
        0 <= x * width,
{
    assert(x * width + width <= rows * width) by (nonlinear_arith)
        requires
            x + 1 <= rows,
            width >= 0,
    ;
    assert(0 <= x * width) by (nonlinear_arith)
        requires
            0 <= x,
            0 <= width,
    ;
}

impl<F: Family> PatternSource for PatternTable<F> {
    open spec fn words(&self) -> Seq<Seq<char>> {
        letters_of(self.words@)
    }

    open spec fn wf(&self) -> bool {
        self.filled()
    }

    fn size(&self) -> (n: usize) {
        self.size
    }

    fn same_feedback(&self, guess: usize, answer: usize, other: usize) -> (same: bool) {
        proof {
            lemma_code_injective(
                feedback(self.words@[guess as int].letters(), self.words@[answer as int].letters()),
                feedback(self.words@[guess as int].letters(), self.words@[other as int].letters()),
            );
        }
        self.pattern(guess, answer) == self.pattern(guess, other)
    }
}

/// A way to rank guesses by lookahead.
pub trait Guesser<F: Family> {
    /// The word list that the search works in, for the given valid guesses.
    spec fn word_list(&self, valid_guesses: Seq<F::Word>) -> Seq<F::Word>;

    /// What the guesser needs to hold of itself.
    spec fn ready(&self) -> bool;

    /// Ranks the valid guesses over the possible answers, by ascending
    /// score. The guesser's word list holds both.
    fn rank_guesses(&self, valid_guesses: &[F::Word], possible_answers: &[F::Word]) -> (ranking:
        Result<Vec<(F::Word, usize)>, SearchExhausted>)
        requires
            self.ready(),
            all_known(self.word_list(valid_guesses@), valid_guesses@),
            all_known(self.word_list(valid_guesses@), possible_answers@),
            possible_answers@.len() * MAX_DEPTH <= usize::MAX,
        ensures
            ranking_of(self.word_list(valid_guesses@), valid_guesses@, possible_answers@, ranking),
    ;
}

impl<F: Family> Guesser<F> for BfsGuesser {
    open spec fn word_list(&self, valid_guesses: Seq<F::Word>) -> Seq<F::Word> {
        valid_guesses
    }

    open spec fn ready(&self) -> bool {
        true
    }

    fn rank_guesses(&self, valid_guesses: &[F::Word], possible_answers: &[F::Word]) -> (ranking:
        Result<Vec<(F::Word, usize)>, SearchExhausted>) {
        BfsGuesser::rank_guesses::<F>(self, valid_guesses, possible_answers)
    }
}

impl<F: Family> Guesser<F> for BfsGuesserCachedPatterns<F> {
    open spec fn word_list(&self, valid_guesses: Seq<F::Word>) -> Seq<F::Word> {
        self.table.words@
    }

    open spec fn ready(&self) -> bool {
        self.wf()
    }

    fn rank_guesses(&self, valid_guesses: &[F::Word], possible_answers: &[F::Word]) -> (ranking:
        Result<Vec<(F::Word, usize)>, SearchExhausted>) {
        BfsGuesserCachedPatterns::rank_guesses(self, valid_guesses, possible_answers)
    }
}

impl<F: Family> Guesser<F> for BfsGuesserFullCache<F> {
    open spec fn word_list(&self, valid_guesses: Seq<F::Word>) -> Seq<F::Word> {
        self.table.words@
    }

    open spec fn ready(&self) -> bool {
        self.wf()
    }

    fn rank_guesses(&self, valid_guesses: &[F::Word], possible_answers: &[F::Word]) -> (ranking:
        Result<Vec<(F::Word, usize)>, SearchExhausted>) {
        BfsGuesserFullCache::rank_guesses(self, valid_guesses, possible_answers)
    }
}

/// A guesser chosen at run time.
pub enum GuesserWrapper<F: Family> {
    Bfs(BfsGuesser),
    BfsCache(BfsGuesserCachedPatterns<F>),
    BfsFullCache(BfsGuesserFullCache<F>),
}

impl<F: Family> Guesser<F> for GuesserWrapper<F> {
    open spec fn word_list(&self, valid_guesses: Seq<F::Word>) -> Seq<F::Word> {
        match self {
            GuesserWrapper::Bfs(_) => valid_guesses,
            GuesserWrapper::BfsCache(g) => g.table.words@,
            GuesserWrapper::BfsFullCache(g) => g.table.words@,
        }
    }

    open spec fn ready(&self) -> bool {
        match self {
            GuesserWrapper::Bfs(_) => true,
            GuesserWrapper::BfsCache(g) => g.wf(),
            GuesserWrapper::BfsFullCache(g) => g.wf(),
        }
    }

    fn rank_guesses(&self, valid_guesses: &[F::Word], possible_answers: &[F::Word]) -> (ranking:
        Result<Vec<(F::Word, usize)>, SearchExhausted>) {
        match self {
            GuesserWrapper::Bfs(g) => BfsGuesser::rank_guesses::<F>(
                g,
                valid_guesses,
                possible_answers,
            ),
            GuesserWrapper::BfsCache(g) => BfsGuesserCachedPatterns::rank_guesses(
                g,
                valid_guesses,
                possible_answers,
            ),
            GuesserWrapper::BfsFullCache(g) => BfsGuesserFullCache::rank_guesses(
                g,
                valid_guesses,
                possible_answers,
            ),
        }
    }
}

} // verus!
