//! Lookahead over a pattern table, with a memo of the answers that each
//! guess set leaves, kept per answer and shared by all first guesses.

use crate::guesser_family::backlog::{
    extends, key_of, oldest_first_depth, remembers, set_key, MAX_WORDS,
};
use crate::guesser_family::guess_set::{
    all_below, in_range, search_depth, single, GuessSet, SearchExhausted, MAX_DEPTH,
};
use crate::guesser_family::ranking::{
    all_known, depth_sum, indices_of, lemma_depth_sum, ranked, ranking_of, score, scores,
};
use crate::guesser_family::{letters_of, PatternTable};
use crate::guesser_family::short;
use crate::words_family::{Family, WordTrait};
use std::collections::HashMap;
use vstd::prelude::*;

pub use crate::guesser_family::bfs_guesser_cached_patterns::PatternToU8;
pub use crate::guesser_family::frontier::P;

verus! {

/// Ranks guesses by lookahead over a table of compact patterns, with a memo
/// per answer.
pub struct BfsGuesserFullCache<F: Family> {
    pub table: PatternTable<F>,
}

impl<F: Family> BfsGuesserFullCache<F> {
    /// The guesser's table is filled, and small enough for 64-bit keys.
    pub open spec fn wf(&self) -> bool {
        &&& self.table.filled()
        &&& self.table.size <= MAX_WORDS
    }

    /// The words of the guesser's table.
    pub open spec fn words(&self) -> Seq<Seq<char>> {
        letters_of(self.table.words@)
    }

    /// A guesser over the given word list.
    pub fn new(valid: &[F::Word]) -> (guesser: Self) where F::Pattern: PatternToU8
        requires
            short(valid@),
            valid@.len() <= MAX_WORDS,
            valid@.len() * valid@.len() <= usize::MAX,
        ensures
            guesser.wf(),
            guesser.table.words@ == valid@,
    {
        Self { table: PatternTable::new(valid) }
    }

    /// The compact pattern of the guess against the answer.
    pub fn pattern(&self, guess_index: usize, answer_index: usize) -> (byte: u8)
        requires
            self.wf(),
            guess_index < self.table.size,
            answer_index < self.table.size,
        ensures
            byte == crate::engine::code(
                crate::engine::feedback(
                    self.table.words@[guess_index as int].letters(),
                    self.table.words@[answer_index as int].letters(),
                ),
            ),
    {
        self.table.pattern(guess_index, answer_index)
    }

    /// The key of a guess set in the memo: the guesses, greatest first, as
    /// the digits of a number in the base of the word list's length, the
    /// last digit weighing that length once. No two canonical sets share a
    /// key (`lemma_key_injective`).
    pub fn hash(&self, guesses: &GuessSet) -> (key: u64)
        requires
            self.wf(),
            in_range(*guesses, self.table.size as nat),
        ensures
            key == set_key(*guesses, self.table.size as nat),
    {
        key_of(guesses, self.table.size)
    }

    /// The depth of `guess` against `answer`, by a search that takes the
    /// guess sets in the order in which it found them. The memo belongs to
    /// `answer` and to the possible answers: every count that the search
    /// needs is looked up there first, and written there once counted.
    pub fn rank_guess_against_answer(
        &self,
        guess: usize,
        answer: usize,
        valid_guesses: &[usize],
        possible_answers: &[usize],
        cache: &mut HashMap<u64, usize>,
    ) -> (depth: Result<usize, SearchExhausted>)
        requires
            self.wf(),
            guess < self.table.size,
            answer < self.table.size,
            all_below(valid_guesses@, self.table.size as nat),
            all_below(possible_answers@, self.table.size as nat),
            remembers(old(cache)@, self.words(), answer as int, possible_answers@),
        ensures
            depth == search_depth(
                self.words(),
                guess,
                answer as int,
                valid_guesses@,
                possible_answers@,
            ),
            remembers(final(cache)@, self.words(), answer as int, possible_answers@),
            extends(final(cache)@, old(cache)@),
            final(cache)@.dom().contains(set_key(single(guess), self.table.size as nat) as u64),
    {
        oldest_first_depth(&self.table, guess, answer, valid_guesses, possible_answers, cache)
    }

    /// Ranks the valid guesses. The guesser's word list holds them, and the
    /// possible answers. The work goes answer by answer: each answer has a
    /// memo of its own, which the searches of all first guesses share, and
    /// adds one depth to the score of every guess.
    pub fn rank_guesses(&self, valid_guesses: &[F::Word], possible_answers: &[F::Word]) -> (ranking:
        Result<Vec<(F::Word, usize)>, SearchExhausted>)
        requires
            self.wf(),
            all_known(self.table.words@, valid_guesses@),
            all_known(self.table.words@, possible_answers@),
            possible_answers@.len() * MAX_DEPTH <= usize::MAX,
        ensures
            ranking_of(self.table.words@, valid_guesses@, possible_answers@, ranking),
    {
        let valid = indices_of(self.table.words.as_slice(), valid_guesses);
        let possible = indices_of(self.table.words.as_slice(), possible_answers);
        let mut totals: Vec<usize> = Vec::new();
        while totals.len() < valid.len()
            invariant
                totals@.len() <= valid@.len(),
                forall|i: int| 0 <= i < totals@.len() ==> totals@[i] == 0,
            decreases valid@.len() - totals@.len(),
        {
            totals.push(0);
        }
        let mut k: usize = 0;
        while k < possible.len()
            invariant
                k <= possible@.len(),
                self.wf(),
                valid@ == crate::guesser_family::ranking::positions(self.table.words@, valid_guesses@),
                possible@ == crate::guesser_family::ranking::positions(
                    self.table.words@,
                    possible_answers@,
                ),
                self.words().len() == self.table.size,
                all_below(valid@, self.table.size as nat),
                all_below(possible@, self.table.size as nat),
                possible@.len() * MAX_DEPTH <= usize::MAX,
                totals@.len() == valid@.len(),
                forall|i: int|
                    0 <= i < valid@.len() ==> (#[trigger] depth_sum(
                        self.words(),
                        valid@[i],
                        valid@,
                        possible@,
                        k as int,
                    )) == Ok::<nat, SearchExhausted>(totals@[i] as nat),
            decreases possible@.len() - k,
        {
            let mut cache: HashMap<u64, usize> = HashMap::new();
            let mut g: usize = 0;
            while g < valid.len()
                invariant
                    g <= valid@.len(),
                    k < possible@.len(),
                    self.wf(),
                    valid@ == crate::guesser_family::ranking::positions(
                        self.table.words@,
                        valid_guesses@,
                    ),
                    possible@ == crate::guesser_family::ranking::positions(
                        self.table.words@,
                        possible_answers@,
                    ),
                    self.words().len() == self.table.size,
                    all_below(valid@, self.table.size as nat),
                    all_below(possible@, self.table.size as nat),
                    possible@.len() * MAX_DEPTH <= usize::MAX,
                    totals@.len() == valid@.len(),
                    remembers(cache@, self.words(), possible@[k as int] as int, possible@),
                    forall|i: int|
                        0 <= i < g ==> (#[trigger] depth_sum(
                            self.words(),
                            valid@[i],
                            valid@,
                            possible@,
                            k as int + 1,
                        )) == Ok::<nat, SearchExhausted>(totals@[i] as nat),
                    forall|i: int|
                        g <= i < valid@.len() ==> (#[trigger] depth_sum(
                            self.words(),
                            valid@[i],
                            valid@,
                            possible@,
                            k as int,
                        )) == Ok::<nat, SearchExhausted>(totals@[i] as nat),
                decreases valid@.len() - g,
            {
                proof {
                    let first = valid@[g as int];
                    assert(depth_sum(self.words(), first, valid@, possible@, k as int) is Ok);
                    lemma_depth_sum(self.words(), first, valid@, possible@, k as int, k as int);
                    lemma_depth_sum(
                        self.words(),
                        first,
                        valid@,
                        possible@,
                        k as int + 1,
                        k as int + 1,
                    );
                    lemma_depth_sum(
                        self.words(),
                        first,
                        valid@,
                        possible@,
                        k as int + 1,
                        possible@.len() as int,
                    );
                }
                match self.rank_guess_against_answer(
                    valid[g],
                    possible[k],
                    valid.as_slice(),
                    possible.as_slice(),
                    &mut cache,
                ) {
                    Ok(depth) => {
                        let sum = totals[g] + depth;
                        totals.set(g, sum);
                    },
                    Err(e) => {
                        assert(!(score(self.words(), valid@[g as int], valid@, possible@) is Ok));
                        return Err(e);
                    },
                }
                g += 1;
            }
            k += 1;
        }
        proof {
            assert forall|i: int| 0 <= i < valid@.len() implies (#[trigger] score(
                self.words(),
                valid@[i],
                valid@,
                possible@,
            )) is Ok by {
                assert(depth_sum(self.words(), valid@[i], valid@, possible@, k as int) is Ok);
            }
            assert(totals@ =~= scores(self.words(), valid@, possible@)) by {
                assert forall|i: int| 0 <= i < valid@.len() implies totals@[i] == scores(
                    self.words(),
                    valid@,
                    possible@,
                )[i] by {
                    assert(depth_sum(self.words(), valid@[i], valid@, possible@, k as int) is Ok);
                }
            }
        }
        Ok(ranked(valid_guesses, &totals))
    }
}

} // verus!
