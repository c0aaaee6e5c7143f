//! Lookahead that works every pattern out afresh.

use crate::guesser_family::frontier::best_first_depth;
use crate::guesser_family::guess_set::{all_below, search_depth, SearchExhausted, MAX_DEPTH};
use crate::guesser_family::ranking::{
    all_known, lemma_known_in_itself, rank_by_search, ranking_of, score,
};
use crate::guesser_family::{letters_of, WordList};
use crate::words_family::Family;
use vstd::prelude::*;

pub use crate::guesser_family::frontier::P;

verus! {

/// Ranks guesses by best-first lookahead, with no table and no memo.
pub struct BfsGuesser;

impl BfsGuesser {
    pub fn new() -> Self {
        BfsGuesser
    }

    /// The depth of the guess at `first_guess` against the answer at
    /// `answer`, both places in `words`, as are the valid guesses and the
    /// possible answers.
    pub fn rank_guess_against_answer<F: Family>(
        first_guess: usize,
        answer: usize,
        words: &[F::Word],
        valid_guesses: &[usize],
        possible_answers: &[usize],
    ) -> (depth: Result<usize, SearchExhausted>)
        requires
            first_guess < words@.len(),
            answer < words@.len(),
            all_below(valid_guesses@, words@.len()),
            all_below(possible_answers@, words@.len()),
        ensures
            depth == search_depth(
                letters_of(words@),
                first_guess,
                answer as int,
                valid_guesses@,
                possible_answers@,
            ),
    {
        let src: WordList<'_, F> = WordList { words };
        best_first_depth(&src, first_guess, answer, valid_guesses, possible_answers)
    }

    /// The score of the guess at `guess`: the sum of its depths against the
    /// possible answers.
    pub fn rank_guess<F: Family>(
        &self,
        guess: usize,
        words: &[F::Word],
        valid_guesses: &[usize],
        possible_answers: &[usize],
    ) -> (total: Result<usize, SearchExhausted>)
        requires
            guess < words@.len(),
            all_below(valid_guesses@, words@.len()),
            all_below(possible_answers@, words@.len()),
            possible_answers@.len() * MAX_DEPTH <= usize::MAX,
        ensures
            match total {
                Ok(sum) => score(letters_of(words@), guess, valid_guesses@, possible_answers@)
                    == Ok::<nat, SearchExhausted>(sum as nat),
                Err(_) => score(
                    letters_of(words@),
                    guess,
                    valid_guesses@,
                    possible_answers@,
                ) is Err,
            },
    {
        let src: WordList<'_, F> = WordList { words };
        crate::guesser_family::ranking::rank_guess(&src, guess, valid_guesses, possible_answers)
    }

    /// Ranks the valid guesses, which are the word list of the search and
    /// hold every possible answer.
    pub fn rank_guesses<F: Family>(
        &self,
        valid_guesses: &[F::Word],
        possible_answers: &[F::Word],
    ) -> (ranking: Result<Vec<(F::Word, usize)>, SearchExhausted>)
        requires
            all_known(valid_guesses@, possible_answers@),
            possible_answers@.len() * MAX_DEPTH <= usize::MAX,
        ensures
            ranking_of(valid_guesses@, valid_guesses@, possible_answers@, ranking),
    {
        proof {
            lemma_known_in_itself(valid_guesses@);
        }
        let src: WordList<'_, F> = WordList { words: valid_guesses };
        rank_by_search(&src, valid_guesses, valid_guesses, possible_answers)
    }
}

} // verus!
