//! Best-first lookahead that takes its patterns from a cache where it has
//! one.

use crate::guesser::{all_listed, lookahead_ranking, rank_by_lookahead, spelled, Lookup, PatternCache};
use crate::guesser_family::frontier::best_first_depth;
use crate::guesser_family::guess_set::{all_below, search_depth, SearchExhausted, MAX_DEPTH};
use crate::guesser_family::ranking::score;
use crate::words::Word;
use vstd::prelude::*;

pub use crate::guesser_family::frontier::P;

verus! {

/// Ranks guesses by best-first lookahead.
#[derive(Debug, Clone, Copy)]
pub struct BFSSmartGuesser;

impl BFSSmartGuesser {
    /// The depth of the guess at `first_guess` against the answer at
    /// `answer`, both places in `words`, as are the valid guesses and the
    /// possible answers.
    pub fn rank_guess_against_answer<const N: usize>(
        first_guess: usize,
        answer: usize,
        words: &[Word<N>],
        valid_guesses: &[usize],
        possible_answers: &[usize],
        pattern_cache: Option<&PatternCache<N>>,
    ) -> (depth: Result<usize, SearchExhausted>)
        requires
            pattern_cache is Some ==> pattern_cache->0.filled(),
            first_guess < words@.len(),
            answer < words@.len(),
            all_below(valid_guesses@, words@.len()),
            all_below(possible_answers@, words@.len()),
        ensures
            depth == search_depth(
                spelled(words@),
                first_guess,
                answer as int,
                valid_guesses@,
                possible_answers@,
            ),
    {
        let src = Lookup { words, cache: pattern_cache };
        best_first_depth(&src, first_guess, answer, valid_guesses, possible_answers)
    }

    /// The score of the guess at `guess`: the sum of its depths against the
    /// possible answers.
    pub fn rank_guess<const N: usize>(
        &self,
        guess: usize,
        words: &[Word<N>],
        valid_guesses: &[usize],
        possible_answers: &[usize],
        pattern_cache: Option<&PatternCache<N>>,
    ) -> (total: Result<usize, SearchExhausted>)
        requires
            pattern_cache is Some ==> pattern_cache->0.filled(),
            guess < words@.len(),
            all_below(valid_guesses@, words@.len()),
            all_below(possible_answers@, words@.len()),
            possible_answers@.len() * MAX_DEPTH <= usize::MAX,
        ensures
            match total {
                Ok(sum) => score(spelled(words@), guess, valid_guesses@, possible_answers@)
                    == Ok::<nat, SearchExhausted>(sum as nat),
                Err(_) => score(spelled(words@), guess, valid_guesses@, possible_answers@) is Err,
            },
    {
        let src = Lookup { words, cache: pattern_cache };
        crate::guesser_family::ranking::rank_guess(&src, guess, valid_guesses, possible_answers)
    }

    /// Ranks the valid guesses, which hold every possible answer.
    pub fn rank_guesses<const N: usize>(
        &self,
        valid_guesses: &[Word<N>],
        possible_answers: &[Word<N>],
        pattern_cache: Option<&PatternCache<N>>,
    ) -> (ranking: Result<Vec<(Word<N>, usize)>, SearchExhausted>)
        requires
            pattern_cache is Some ==> pattern_cache->0.filled(),
            all_listed(valid_guesses@, possible_answers@),
            possible_answers@.len() * MAX_DEPTH <= usize::MAX,
        ensures
            lookahead_ranking(valid_guesses@, possible_answers@, ranking),
    {
        rank_by_lookahead(valid_guesses, possible_answers, pattern_cache)
    }
}

} // verus!
