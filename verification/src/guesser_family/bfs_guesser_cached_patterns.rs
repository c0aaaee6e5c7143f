//! Lookahead over a table of compact patterns, worked out once.

use crate::engine::{code, feedback};
use crate::guesser_family::frontier::best_first_depth;
use crate::guesser_family::guess_set::{all_below, search_depth, SearchExhausted, MAX_DEPTH};
use crate::guesser_family::ranking::{all_known, rank_by_search, ranking_of, score};
use crate::guesser_family::{letters_of, PatternTable};
use crate::guesser_family::short;
use crate::words_family::words_1::Pattern1;
use crate::words_family::{Family, WordTrait};
use crate::words_family::PatternTrait;
use vstd::prelude::*;

pub use crate::guesser_family::frontier::P;

verus! {

/// A pattern that can be written as one byte.
pub trait PatternToU8: PatternTrait {
    /// The compact code of the pattern, for patterns of at most five
    /// verdicts.
    fn as_u8(&self) -> (byte: u8)
        requires
            self.verdicts().len() <= 5,
        ensures
            byte == code(self.verdicts()),
    ;
}

impl<const N: usize> PatternToU8 for Pattern1<N> {
    fn as_u8(&self) -> (byte: u8) {
        crate::engine::encode(&self.data)
    }
}

/// Ranks guesses by best-first lookahead over a table of the compact
/// patterns of its word list.
pub struct BfsGuesserCachedPatterns<F: Family> {
    pub table: PatternTable<F>,
}

impl<F: Family> BfsGuesserCachedPatterns<F> {
    /// The guesser's table is filled.
    pub open spec fn wf(&self) -> bool {
        self.table.filled()
    }

    /// The words of the guesser's table.
    pub open spec fn words(&self) -> Seq<Seq<char>> {
        letters_of(self.table.words@)
    }

    /// A guesser over the given word list.
    pub fn new(valid: &[F::Word]) -> (guesser: Self) where F::Pattern: PatternToU8
        requires
            short(valid@),
            valid@.len() * valid@.len() <= usize::MAX,
        ensures
            guesser.wf(),
            guesser.table.words@ == valid@,
    {
        Self { table: PatternTable::new(valid) }
    }

    /// The compact pattern of the guess against the answer.
    pub fn pattern(&self, guess_index: usize, answer_index: usize) -> (byte: u8)
        requires
            self.wf(),
            guess_index < self.table.size,
            answer_index < self.table.size,
        ensures
            byte == code(
                feedback(
                    self.table.words@[guess_index as int].letters(),
                    self.table.words@[answer_index as int].letters(),
                ),
            ),
    {
        self.table.pattern(guess_index, answer_index)
    }

    /// The depth of the guess at `guess_index` against the answer at
    /// `answer_index`.
    pub fn rank_guess_against_answer(
        &self,
        guess_index: usize,
        answer_index: usize,
        valid_guesses_indices: &[usize],
        possible_answers_indices: &[usize],
    ) -> (depth: Result<usize, SearchExhausted>)
        requires
            self.wf(),
            guess_index < self.table.size,
            answer_index < self.table.size,
            all_below(valid_guesses_indices@, self.table.size as nat),
            all_below(possible_answers_indices@, self.table.size as nat),
        ensures
            depth == search_depth(
                self.words(),
                guess_index,
                answer_index as int,
                valid_guesses_indices@,
                possible_answers_indices@,
            ),
    {
        best_first_depth(
            &self.table,
            guess_index,
            answer_index,
            valid_guesses_indices,
            possible_answers_indices,
        )
    }

    /// The score of the guess at `guess_index`: the sum of its depths
    /// against the possible answers.
    pub fn rank_guess(
        &self,
        guess_index: usize,
        valid_guesses_indices: &[usize],
        possible_answers_indices: &[usize],
    ) -> (total: Result<usize, SearchExhausted>)
        requires
            self.wf(),
            guess_index < self.table.size,
            all_below(valid_guesses_indices@, self.table.size as nat),
            all_below(possible_answers_indices@, self.table.size as nat),
            possible_answers_indices@.len() * MAX_DEPTH <= usize::MAX,
        ensures
            match total {
                Ok(sum) => score(
                    self.words(),
                    guess_index,
                    valid_guesses_indices@,
                    possible_answers_indices@,
                ) == Ok::<nat, SearchExhausted>(sum as nat),
                Err(_) => score(
                    self.words(),
                    guess_index,
                    valid_guesses_indices@,
                    possible_answers_indices@,
                ) is Err,
            },
    {
        crate::guesser_family::ranking::rank_guess(
            &self.table,
            guess_index,
            valid_guesses_indices,
            possible_answers_indices,
        )
    }

    /// Ranks the valid guesses. The guesser's word list holds them, and the
    /// possible answers.
    pub fn rank_guesses(&self, valid_guesses: &[F::Word], possible_answers: &[F::Word]) -> (ranking:
        Result<Vec<(F::Word, usize)>, SearchExhausted>)
        requires
            self.wf(),
            all_known(self.table.words@, valid_guesses@),
            all_known(self.table.words@, possible_answers@),
            possible_answers@.len() * MAX_DEPTH <= usize::MAX,
        ensures
            ranking_of(self.table.words@, valid_guesses@, possible_answers@, ranking),
    {
        rank_by_search(&self.table, self.table.words.as_slice(), valid_guesses, possible_answers)
    }
}

} // verus!
