//! Lookahead without a cache, best-first or in the order of discovery.

use crate::guesser::{
    all_listed, count_up, every, lookahead_ranking, places_in, places_of, spelled, Lookup,
};
use crate::guesser_family::frontier::{best_first_depth, waiting};
use crate::guesser_family::guess_set::{
    all_below, contains, count_survivors, holds, insert, left_after, lemma_found, lemma_full_set,
    len_of, listed, narrowed_by_second, pair, reachable, search_depth, set_len, single,
    two_others, with_guess, GuessSet, SearchExhausted, LEN_TO_FIND, MAX_DEPTH, NO_GUESS,
};
use crate::guesser_family::PatternSource;
use crate::guesser_family::ranking::{depth_sum, lemma_depth_sum, ranked, score, scores};
use crate::words::Word;
use std::collections::VecDeque;
use vstd::prelude::*;

pub use crate::guesser_family::frontier::P;

verus! {

/// Whether the set waits in the queue.
pub open spec fn queued(queue: Seq<GuessSet>, set: GuessSet) -> bool {
    exists|i: int| 0 <= i < queue.len() && #[trigger] queue[i] == set
}

/// Whether the set waits in the queue.
fn in_queue(queue: &VecDeque<GuessSet>, set: GuessSet) -> (yes: bool)
    ensures
        yes == queued(queue@, set),
{
    let mut i: usize = 0;
    while i < queue.len()
        invariant
            i <= queue@.len(),
            forall|k: int| 0 <= k < i ==> #[trigger] queue@[k] != set,
        decreases queue@.len() - i,
    {
        let held = queue[i];
        if held.0 == set.0 && held.1 == set.1 && held.2 == set.2 {
            assert(queue@[i as int] == set);
            return true;
        }
        i += 1;
    }
    false
}

/// Looks at every set that adds one valid guess to `seen`, in the order of
/// the valid guesses. A set that waits in the queue already is passed over.
/// The first new set that leaves at most `LEN_TO_FIND` answers ends the
/// search; every other new set joins the end of the queue.
fn expand<S: PatternSource>(
    src: &S,
    queue: &mut VecDeque<GuessSet>,
    seen: GuessSet,
    first: usize,
    answer: usize,
    valid: &[usize],
    possible: &[usize],
) -> (found: bool)
    requires
        src.wf(),
        src.words().len() <= usize::MAX,
        first < src.words().len(),
        answer < src.words().len(),
        all_below(valid@, src.words().len()),
        all_below(possible@, src.words().len()),
        reachable(seen, first, valid@, src.words().len()),
        set_len(seen) < MAX_DEPTH,
    ensures
        found ==> exists|j: int|
            0 <= j < valid@.len() && !holds(seen, #[trigger] valid@[j]) && left_after(
                src.words(),
                with_guess(seen, valid@[j]),
                answer as int,
                possible@,
            ) <= LEN_TO_FIND,
        !found ==> forall|j: int|
            0 <= j < valid@.len() && !holds(seen, #[trigger] valid@[j]) ==> queued(
                final(queue)@,
                with_guess(seen, valid@[j]),
            ),
        final(queue)@.len() >= old(queue)@.len(),
        forall|i: int| 0 <= i < old(queue)@.len() ==> final(queue)@[i] == old(queue)@[i],
        forall|i: int|
            old(queue)@.len() <= i < final(queue)@.len() ==> waiting(
                #[trigger] final(queue)@[i],
                src.words(),
                first,
                answer as int,
                valid@,
                possible@,
            ) && set_len(final(queue)@[i]) == set_len(seen) + 1,
{
    let mut j: usize = 0;
    while j < valid.len()
        invariant
            j <= valid@.len(),
            src.wf(),
            src.words().len() <= usize::MAX,
            first < src.words().len(),
            answer < src.words().len(),
            all_below(valid@, src.words().len()),
            all_below(possible@, src.words().len()),
            reachable(seen, first, valid@, src.words().len()),
            set_len(seen) < MAX_DEPTH,
            forall|k: int|
                0 <= k < j && !holds(seen, #[trigger] valid@[k]) ==> queued(
                    queue@,
                    with_guess(seen, valid@[k]),
                ),
            queue@.len() >= old(queue)@.len(),
            forall|i: int| 0 <= i < old(queue)@.len() ==> queue@[i] == old(queue)@[i],
            forall|i: int|
                old(queue)@.len() <= i < queue@.len() ==> waiting(
                    #[trigger] queue@[i],
                    src.words(),
                    first,
                    answer as int,
                    valid@,
                    possible@,
                ) && set_len(queue@[i]) == set_len(seen) + 1,
        decreases valid@.len() - j,
    {
        let guess = valid[j];
        if !contains(seen, guess) {
            let next = insert(seen, guess);
            if !in_queue(queue, next) {
                let left = count_survivors(src, next, answer, possible);
                if left <= LEN_TO_FIND {
                    return true;
                }
                proof {
                    assert(listed(valid@, guess));
                    assert(reachable(next, first, valid@, src.words().len()));
                }
                let ghost before = queue@;
                queue.push_back(next);
                proof {
                    assert(queue@[before.len() as int] == next);
                    assert forall|k: int|
                        0 <= k < j && !holds(seen, #[trigger] valid@[k]) implies queued(
                        queue@,
                        with_guess(seen, valid@[k]),
                    ) by {
                        let i = choose|i: int|
                            0 <= i < before.len() && #[trigger] before[i] == with_guess(
                                seen,
                                valid@[k],
                            );
                        assert(queue@[i] == with_guess(seen, valid@[k]));
                    }
                }
            }
        }
        j += 1;
    }
    false
}

/// The depth of `first` against `answer`, by a search that takes the guess
/// sets in the order in which it found them, and keeps nothing but the
/// queue. It starts from the set of `first` alone. It ends with the size of
/// the first set found to leave at most `LEN_TO_FIND` answers, or with
/// `MAX_DEPTH` once a set of that size comes up, and fails where the queue
/// runs dry before either happens.
pub fn first_found_depth<S: PatternSource>(
    src: &S,
    first: usize,
    answer: usize,
    valid: &[usize],
    possible: &[usize],
) -> (depth: Result<usize, SearchExhausted>)
    requires
        src.wf(),
        first < src.words().len(),
        answer < src.words().len(),
        all_below(valid@, src.words().len()),
        all_below(possible@, src.words().len()),
    ensures
        depth == search_depth(src.words(), first, answer as int, valid@, possible@),
{
    let n = src.size();
    let root: GuessSet = (first, NO_GUESS, NO_GUESS);
    let left = count_survivors(src, root, answer, possible);
    if left <= LEN_TO_FIND {
        return Ok(1);
    }
    let mut queue: VecDeque<GuessSet> = VecDeque::new();
    queue.push_back(root);
    let ghost mut root_waits = true;
    let ghost mut small: int = 1;
    loop
        invariant
            src.wf(),
            src.words().len() <= usize::MAX,
            first < src.words().len(),
            answer < src.words().len(),
            all_below(valid@, src.words().len()),
            all_below(possible@, src.words().len()),
            root == single(first),
            left_after(src.words(), root, answer as int, possible@) > LEN_TO_FIND,
            0 <= small <= queue@.len(),
            forall|i: int|
                0 <= i < queue@.len() ==> waiting(
                    #[trigger] queue@[i],
                    src.words(),
                    first,
                    answer as int,
                    valid@,
                    possible@,
                ),
            forall|i: int| 0 <= i < small ==> set_len(#[trigger] queue@[i]) <= 2,
            forall|i: int| small <= i < queue@.len() ==> set_len(#[trigger] queue@[i]) == 3,
            root_waits ==> queue@ =~= seq![root],
            !root_waits ==> forall|i: int|
                0 <= i < queue@.len() ==> set_len(#[trigger] queue@[i]) >= 2,
            !root_waits ==> !narrowed_by_second(
                src.words(),
                first,
                answer as int,
                valid@,
                possible@,
            ),
            !root_waits && two_others(valid@, first) ==> queue@.len() > 0,
        decreases
                (if root_waits {
                    1int
                } else {
                    0int
                }),
                small,
    {
        let ghost before = queue@;
        match queue.pop_front() {
            None => {
                return Err(SearchExhausted);
            },
            Some(seen) => {
                assert(seen == before[0]);
                assert(waiting(seen, src.words(), first, answer as int, valid@, possible@));
                assert forall|i: int| 0 <= i < queue@.len() implies queue@[i] == before[i
                    + 1] by {}
                let size = len_of(seen);
                if size >= MAX_DEPTH {
                    proof {
                        lemma_full_set(seen, first, valid@, src.words().len());
                    }
                    return Ok(MAX_DEPTH);
                }
                let ghost popped = queue@;
                let found = expand(src, &mut queue, seen, first, answer, valid, possible);
                if found {
                    proof {
                        if size == 2 {
                            lemma_found(seen, first, valid@, src.words().len());
                        }
                    }
                    return Ok(size + 1);
                }
                proof {
                    if root_waits {
                        assert(seen == root);
                        assert(popped.len() == 0);
                        root_waits = false;
                        small = queue@.len() as int;
                        assert forall|j: int|
                            0 <= j < valid@.len() && #[trigger] valid@[j] != first implies left_after(
                            src.words(),
                            pair(first, valid@[j]),
                            answer as int,
                            possible@,
                        ) > LEN_TO_FIND by {
                            assert(!holds(seen, valid@[j]));
                            let i = choose|i: int|
                                0 <= i < queue@.len() && #[trigger] queue@[i] == with_guess(
                                    seen,
                                    valid@[j],
                                );
                            assert(waiting(
                                queue@[i],
                                src.words(),
                                first,
                                answer as int,
                                valid@,
                                possible@,
                            ));
                        }
                    } else {
                        assert(size == 2);
                        assert(small > 0);
                        small = small - 1;
                    }
                    if two_others(valid@, first) {
                        let (a, b) = choose|a: int, b: int|
                            0 <= a < valid@.len() && 0 <= b < valid@.len() && #[trigger] valid@[a]
                                != first && #[trigger] valid@[b] != first && valid@[a] != valid@[b];
                        if !holds(seen, valid@[a]) {
                            assert(queued(queue@, with_guess(seen, valid@[a])));
                        } else {
                            assert(!holds(seen, valid@[b]));
                            assert(queued(queue@, with_guess(seen, valid@[b])));
                        }
                    }
                }
            },
        }
    }
}

/// Ranks guesses by lookahead, working every pattern out afresh.
#[derive(Debug, Clone, Copy)]
pub struct BfsGuesser;

impl BfsGuesser {
    /// The depth of the guess at `first_guess` against the answer at
    /// `answer`, by best-first search.
    pub fn rank_guess_against_answer<const N: usize>(
        first_guess: usize,
        answer: usize,
        words: &[Word<N>],
        valid_guesses: &[usize],
        possible_answers: &[usize],
    ) -> (depth: Result<usize, SearchExhausted>)
        requires
            first_guess < words@.len(),
            answer < words@.len(),
            all_below(valid_guesses@, words@.len()),
            all_below(possible_answers@, words@.len()),
        ensures
            depth == search_depth(
                spelled(words@),
                first_guess,
                answer as int,
                valid_guesses@,
                possible_answers@,
            ),
    {
        let src = Lookup { words, cache: None };
        best_first_depth(&src, first_guess, answer, valid_guesses, possible_answers)
    }

    /// The depth of the guess at `first_guess` against the answer at
    /// `answer`, by a search that takes the guess sets in the order in which
    /// it found them.
    pub fn rank_guess_against_answer_deque<const N: usize>(
        first_guess: usize,
        answer: usize,
        words: &[Word<N>],
        valid_guesses: &[usize],
        possible_answers: &[usize],
    ) -> (depth: Result<usize, SearchExhausted>)
        requires
            first_guess < words@.len(),
            answer < words@.len(),
            all_below(valid_guesses@, words@.len()),
            all_below(possible_answers@, words@.len()),
        ensures
            depth == search_depth(
                spelled(words@),
                first_guess,
                answer as int,
                valid_guesses@,
                possible_answers@,
            ),
    {
        let src = Lookup { words, cache: None };
        first_found_depth(&src, first_guess, answer, valid_guesses, possible_answers)
    }

    /// The score of the guess at `guess`: the sum of its depths against the
    /// possible answers.
    pub fn rank_guess<const N: usize>(
        &self,
        guess: usize,
        words: &[Word<N>],
        valid_guesses: &[usize],
        possible_answers: &[usize],
    ) -> (total: Result<usize, SearchExhausted>)
        requires
            guess < words@.len(),
            all_below(valid_guesses@, words@.len()),
            all_below(possible_answers@, words@.len()),
            possible_answers@.len() * MAX_DEPTH <= usize::MAX,
        ensures
            match total {
                Ok(sum) => score(spelled(words@), guess, valid_guesses@, possible_answers@)
                    == Ok::<nat, SearchExhausted>(sum as nat),
                Err(_) => score(spelled(words@), guess, valid_guesses@, possible_answers@) is Err,
            },
    {
        let mut sum: usize = 0;
        let mut k: usize = 0;
        while k < possible_answers.len()
            invariant
                k <= possible_answers@.len(),
                    guess < words@.len(),
                all_below(valid_guesses@, words@.len()),
                all_below(possible_answers@, words@.len()),
                possible_answers@.len() * MAX_DEPTH <= usize::MAX,
                depth_sum(spelled(words@), guess, valid_guesses@, possible_answers@, k as int)
                    == Ok::<nat, SearchExhausted>(sum as nat),
            decreases possible_answers@.len() - k,
        {
            proof {
                let all = spelled(words@);
                lemma_depth_sum(all, guess, valid_guesses@, possible_answers@, k as int, k as int);
                lemma_depth_sum(
                    all,
                    guess,
                    valid_guesses@,
                    possible_answers@,
                    k as int + 1,
                    possible_answers@.len() as int,
                );
                lemma_depth_sum(
                    all,
                    guess,
                    valid_guesses@,
                    possible_answers@,
                    k as int + 1,
                    k as int + 1,
                );
            }
            match Self::rank_guess_against_answer_deque(
                guess,
                possible_answers[k],
                words,
                valid_guesses,
                possible_answers,
            ) {
                Ok(depth) => {
                    sum += depth;
                },
                Err(e) => {
                    return Err(e);
                },
            }
            k += 1;
        }
        Ok(sum)
    }

    /// Ranks the valid guesses, which hold every possible answer.
    pub fn rank_guesses<const N: usize>(
        &self,
        valid_guesses: &[Word<N>],
        possible_answers: &[Word<N>],
    ) -> (ranking: Result<Vec<(Word<N>, usize)>, SearchExhausted>)
        requires
            all_listed(valid_guesses@, possible_answers@),
            possible_answers@.len() * MAX_DEPTH <= usize::MAX,
        ensures
            lookahead_ranking(valid_guesses@, possible_answers@, ranking),
    {
        let valid = count_up(valid_guesses.len());
        let possible = places_of(valid_guesses, possible_answers);
        let mut totals: Vec<usize> = Vec::new();
        let mut k: usize = 0;
        while k < valid_guesses.len()
            invariant
                k <= valid_guesses@.len(),
                    valid@ == every(valid_guesses@.len()),
                possible@ == places_in(valid_guesses@, possible_answers@),
                all_below(valid@, valid_guesses@.len()),
                all_below(possible@, valid_guesses@.len()),
                possible@.len() * MAX_DEPTH <= usize::MAX,
                totals@.len() == k,
                forall|i: int|
                    0 <= i < k ==> (#[trigger] score(
                        spelled(valid_guesses@),
                        valid@[i],
                        valid@,
                        possible@,
                    )) is Ok && totals@[i] == scores(spelled(valid_guesses@), valid@, possible@)[i],
            decreases valid_guesses@.len() - k,
        {
            match self.rank_guess(k, valid_guesses, valid.as_slice(), possible.as_slice()) {
                Ok(sum) => {
                    totals.push(sum);
                },
                Err(e) => {
                    assert(!(score(
                        spelled(valid_guesses@),
                        valid@[k as int],
                        valid@,
                        possible@,
                    ) is Ok));
                    return Err(e);
                },
            }
            k += 1;
        }
        assert(totals@ =~= scores(spelled(valid_guesses@), valid@, possible@));
        Ok(ranked(valid_guesses, &totals))
    }
}

} // verus!
