//! The one-step heuristic: a guess is as good as the number of answers that
//! its feedback leaves, summed over all possible answers.

use crate::engine::{consistent, feedback};
use crate::guesser::spelled;
use crate::guesser_family::ranking::{ascending, ranked, scored};
use crate::words::{letters, verdicts, Pattern, Word};
use vstd::prelude::*;

verus! {

/// How many of the first `n` possible answers would have given `guess` the
/// feedback that `answer` gives it.
pub open spec fn naive_left(
    guess: Seq<char>,
    answer: Seq<char>,
    possible: Seq<Seq<char>>,
    n: int,
) -> nat
    decreases n,
{
    if n <= 0 {
        0
    } else {
        let rest = naive_left(guess, answer, possible, n - 1);
        if consistent(possible[n - 1], feedback(guess, answer), guess) {
            rest + 1
        } else {
            rest
        }
    }
}

/// The sum, over the first `m` possible answers, of the number of possible
/// answers that the guess leaves if that answer is the hidden one. Divided
/// by the number of possible answers it is the mean number of answers left.
pub open spec fn naive_total(guess: Seq<char>, possible: Seq<Seq<char>>, m: int) -> nat
    decreases m,
{
    if m <= 0 {
        0
    } else {
        naive_total(guess, possible, m - 1) + naive_left(
            guess,
            possible[m - 1],
            possible,
            possible.len() as int,
        )
    }
}

/// The score of a guess: its total over all possible answers.
pub open spec fn naive_score(guess: Seq<char>, possible: Seq<Seq<char>>) -> nat {
    naive_total(guess, possible, possible.len() as int)
}

/// Counting over more answers never counts fewer, and never more than were
/// looked at.
pub proof fn lemma_left_grows(
    guess: Seq<char>,
    answer: Seq<char>,
    possible: Seq<Seq<char>>,
    m: int,
    n: int,
)
    requires
        0 <= m <= n,
    ensures
        naive_left(guess, answer, possible, m) <= naive_left(guess, answer, possible, n),
        naive_left(guess, answer, possible, n) <= n,
    decreases n,
{
    if n > 0 {
        if m < n {
            lemma_left_grows(guess, answer, possible, m, n - 1);
        } else {
            lemma_left_grows(guess, answer, possible, n - 1, n - 1);
        }
    }
}

/// Whatever the guess, a possible answer leaves at least itself.
pub proof fn lemma_left_holds_answer(guess: Seq<char>, possible: Seq<Seq<char>>, k: int)
    requires
        0 <= k < possible.len(),
    ensures
        1 <= naive_left(guess, possible[k], possible, possible.len() as int) <= possible.len(),
{
    assert(consistent(possible[k], feedback(guess, possible[k]), guess));
    lemma_left_grows(guess, possible[k], possible, k, k);
    assert(naive_left(guess, possible[k], possible, k + 1) >= 1);
    lemma_left_grows(guess, possible[k], possible, k + 1, possible.len() as int);
}

/// The total over `m` answers lies between `m` and `m` times the number of
/// possible answers. So the mean number of answers left lies between one
/// and the number of possible answers.
pub proof fn lemma_naive_bounds(guess: Seq<char>, possible: Seq<Seq<char>>, m: int)
    requires
        0 <= m <= possible.len(),
    ensures
        m <= naive_total(guess, possible, m) <= m * possible.len(),
    decreases m,
{
    if m > 0 {
        lemma_naive_bounds(guess, possible, m - 1);
        lemma_left_holds_answer(guess, possible, m - 1);
        assert((m - 1) * possible.len() + possible.len() == m * possible.len())
            by (nonlinear_arith);
    }
}

/// The answers of a list that stand at the given places.
pub open spec fn picked(possible: Seq<Seq<char>>, places: Seq<int>) -> Seq<Seq<char>> {
    Seq::new(places.len(), |k: int| possible[places[k]])
}

/// The places are places of the list, and ascend strictly: they pick some
/// of the list's answers, each at most once, in their order.
pub open spec fn picks(places: Seq<int>, n: nat) -> bool {
    &&& forall|k: int| 0 <= k < places.len() ==> 0 <= #[trigger] places[k] < n
    &&& forall|i: int, j: int| 0 <= i < j < places.len() ==> places[i] < places[j]
}

/// The end of the stretch of the list that holds the first `j` picks.
pub open spec fn reach(places: Seq<int>, j: int) -> int {
    if j <= 0 {
        0
    } else {
        places[j - 1] + 1
    }
}

/// The total over more answers is never less.
pub proof fn lemma_total_grows(guess: Seq<char>, possible: Seq<Seq<char>>, m: int, n: int)
    requires
        0 <= m <= n,
    ensures
        naive_total(guess, possible, m) <= naive_total(guess, possible, n),
    decreases n,
{
    if m < n {
        lemma_total_grows(guess, possible, m, n - 1);
    }
}

proof fn lemma_left_of_picked(
    guess: Seq<char>,
    answer: Seq<char>,
    possible: Seq<Seq<char>>,
    places: Seq<int>,
    j: int,
)
    requires
        picks(places, possible.len()),
        0 <= j <= places.len(),
    ensures
        naive_left(guess, answer, picked(possible, places), j) <= naive_left(
            guess,
            answer,
            possible,
            reach(places, j),
        ),
    decreases j,
{
    if j > 0 {
        lemma_left_of_picked(guess, answer, possible, places, j - 1);
        lemma_left_grows(guess, answer, possible, reach(places, j - 1), places[j - 1]);
    }
}

proof fn lemma_total_of_picked(
    guess: Seq<char>,
    possible: Seq<Seq<char>>,
    places: Seq<int>,
    j: int,
)
    requires
        picks(places, possible.len()),
        0 <= j <= places.len(),
    ensures
        naive_total(guess, picked(possible, places), j) <= naive_total(
            guess,
            possible,
            reach(places, j),
        ),
    decreases j,
{
    if j > 0 {
        let fewer = picked(possible, places);
        let n = places.len() as int;
        lemma_total_of_picked(guess, possible, places, j - 1);
        lemma_total_grows(guess, possible, reach(places, j - 1), places[j - 1]);
        lemma_left_of_picked(guess, fewer[j - 1], possible, places, n);
        lemma_left_grows(
            guess,
            fewer[j - 1],
            possible,
            reach(places, n),
            possible.len() as int,
        );
    }
}

/// Dropping possible answers never raises the score of a guess: over some
/// of the answers, each counted at most once, the score is at most the
/// score over all of them.
pub proof fn lemma_naive_score_shrinks(guess: Seq<char>, possible: Seq<Seq<char>>, places: Seq<int>)
    requires
        picks(places, possible.len()),
    ensures
        naive_score(guess, picked(possible, places)) <= naive_score(guess, possible),
{
    let n = places.len() as int;
    lemma_total_of_picked(guess, possible, places, n);
    lemma_total_grows(guess, possible, reach(places, n), possible.len() as int);
}

/// The end of the stretch of a list that matches the first `m` entries of
/// the list without its entry at `i`.
pub open spec fn skipping(i: int, m: int) -> int {
    if m <= i {
        m
    } else {
        m + 1
    }
}

proof fn lemma_left_skipping(
    guess: Seq<char>,
    answer: Seq<char>,
    possible: Seq<Seq<char>>,
    i: int,
    m: int,
)
    requires
        0 <= i < possible.len(),
        0 <= m <= possible.len() - 1,
    ensures
        naive_left(guess, answer, possible.remove(i), m) == naive_left(
            guess,
            answer,
            possible,
            skipping(i, m),
        ) - if i < m && consistent(possible[i], feedback(guess, answer), guess) {
            1int
        } else {
            0int
        },
    decreases m,
{
    reveal_with_fuel(naive_left, 3);
    if m > 0 {
        lemma_left_skipping(guess, answer, possible, i, m - 1);
        if m - 1 < i {
            assert(possible.remove(i)[m - 1] == possible[m - 1]);
        } else {
            assert(possible.remove(i)[m - 1] == possible[m]);
        }
    }
}

/// The count of an answer over a list without one entry is its count over
/// the whole list, less one if the entry counted.
pub proof fn lemma_left_without(
    guess: Seq<char>,
    answer: Seq<char>,
    possible: Seq<Seq<char>>,
    i: int,
)
    requires
        0 <= i < possible.len(),
    ensures
        naive_left(guess, answer, possible.remove(i), possible.len() - 1) == naive_left(
            guess,
            answer,
            possible,
            possible.len() as int,
        ) - if consistent(possible[i], feedback(guess, answer), guess) {
            1int
        } else {
            0int
        },
{
    reveal_with_fuel(naive_left, 3);
    lemma_left_skipping(guess, answer, possible, i, possible.len() - 1);
}

proof fn lemma_total_skipping(guess: Seq<char>, possible: Seq<Seq<char>>, i: int, m: int)
    requires
        0 <= i < possible.len(),
        0 <= m <= possible.len() - 1,
    ensures
        naive_total(guess, possible.remove(i), m) == naive_total(
            guess,
            possible,
            skipping(i, m),
        ) - naive_left(guess, possible[i], possible, skipping(i, m)) - if i < m {
            naive_left(guess, possible[i], possible, possible.len() as int) - 1
        } else {
            0int
        },
    decreases m,
{
    reveal_with_fuel(naive_left, 3);
    reveal_with_fuel(naive_total, 3);
    if m > 0 {
        let fewer = possible.remove(i);
        lemma_total_skipping(guess, possible, i, m - 1);
        let k = if m - 1 < i {
            m - 1
        } else {
            m
        };
        assert(fewer[m - 1] == possible[k]);
        assert(fewer.len() == possible.len() - 1);
        lemma_left_without(guess, possible[k], possible, i);
        assert(consistent(possible[i], feedback(guess, possible[k]), guess) == consistent(
            possible[k],
            feedback(guess, possible[i]),
            guess,
        ));
        assert(consistent(possible[i], feedback(guess, possible[i]), guess));
    }
}

/// What dropping one possible answer does to the score of a guess: the
/// answers that the guess cannot tell from the dropped one each lose one
/// from their count, and the dropped answer's own count goes.
pub proof fn lemma_naive_score_after_drop(guess: Seq<char>, possible: Seq<Seq<char>>, i: int)
    requires
        0 <= i < possible.len(),
    ensures
        naive_score(guess, possible.remove(i)) == naive_score(guess, possible) - 2 * naive_left(
            guess,
            possible[i],
            possible,
            possible.len() as int,
        ) + 1,
{
    reveal_with_fuel(naive_left, 3);
    reveal_with_fuel(naive_total, 3);
    lemma_total_skipping(guess, possible, i, possible.len() - 1);
    assert(possible.remove(i).len() == possible.len() - 1);
    assert(consistent(possible[i], feedback(guess, possible[i]), guess));
}

/// When the mean number of answers left does not rise as one of several
/// possible answers is dropped: exactly when the score is at most the number
/// of answers times one less than twice the count of the dropped answer. The
/// means are compared across the two numbers of answers by multiplying out.
pub proof fn lemma_naive_mean_after_drop(guess: Seq<char>, possible: Seq<Seq<char>>, i: int)
    requires
        0 <= i < possible.len(),
        possible.len() >= 2,
    ensures
        (naive_score(guess, possible.remove(i)) * possible.len() <= naive_score(guess, possible) * (
        possible.len() - 1)) == (naive_score(guess, possible) <= possible.len() * (2 * naive_left(
            guess,
            possible[i],
            possible,
            possible.len() as int,
        ) - 1)),
{
    lemma_naive_score_after_drop(guess, possible, i);
    let total = naive_score(guess, possible) as int;
    let fewer = naive_score(guess, possible.remove(i)) as int;
    let n = possible.len() as int;
    let c = naive_left(guess, possible[i], possible, n) as int;
    assert((fewer * n <= total * (n - 1)) == (total <= n * (2 * c - 1))) by (nonlinear_arith)
        requires
            fewer == total - 2 * c + 1,
    ;
}

/// The scores of the valid guesses, in their order.
pub open spec fn naive_scores<const N: usize>(
    valid_guesses: Seq<Word<N>>,
    possible_answers: Seq<Word<N>>,
) -> Seq<usize> {
    Seq::new(
        valid_guesses.len(),
        |k: int| naive_score(valid_guesses[k]@, spelled(possible_answers)) as usize,
    )
}

/// Ranks a guess by the answers that it leaves after one step.
#[derive(Debug, Clone, Copy)]
pub struct NaiveGuesser;

impl NaiveGuesser {
    /// The score of a guess: for each possible answer, the number of
    /// possible answers that match the pattern which that answer gives the
    /// guess; and of these numbers the sum.
    pub fn rank_guess<const N: usize>(
        &self,
        guess: &Word<N>,
        _valid_guesses: &[Word<N>],
        possible_answers: &[Word<N>],
    ) -> (total: usize)
        requires
            possible_answers@.len() * possible_answers@.len() <= usize::MAX,
        ensures
            total == naive_score(guess@, spelled(possible_answers@)),
            possible_answers@.len() <= total <= possible_answers@.len() * possible_answers@.len(),
    {
        let ghost possible = spelled(possible_answers@);
        let mut total: usize = 0;
        let mut k: usize = 0;
        while k < possible_answers.len()
            invariant
                k <= possible_answers@.len(),
                possible == spelled(possible_answers@),
                possible_answers@.len() * possible_answers@.len() <= usize::MAX,
                total == naive_total(guess@, possible, k as int),
            decreases possible_answers@.len() - k,
        {
            let pattern = Pattern::from_guess(guess, &possible_answers[k]);
            let mut left: usize = 0;
            let mut j: usize = 0;
            while j < possible_answers.len()
                invariant
                    j <= possible_answers@.len(),
                    k < possible_answers@.len(),
                    possible == spelled(possible_answers@),
                    letters(pattern@) == guess@,
                    verdicts(pattern@) == feedback(guess@, possible_answers@[k as int]@),
                    left <= j,
                    left == naive_left(guess@, possible[k as int], possible, j as int),
                decreases possible_answers@.len() - j,
            {
                if possible_answers[j].matches(&pattern) {
                    left += 1;
                }
                j += 1;
            }
            proof {
                lemma_naive_bounds(guess@, possible, k as int);
                lemma_naive_bounds(guess@, possible, k as int + 1);
                assert((k + 1) * possible.len() <= possible.len() * possible.len())
                    by (nonlinear_arith)
                    requires
                        k + 1 <= possible.len(),
                ;
            }
            total += left;
            k += 1;
        }
        proof {
            lemma_naive_bounds(guess@, possible, possible.len() as int);
        }
        total
    }

    /// Ranks the valid guesses by ascending score.
    pub fn rank_guesses<const N: usize>(
        &self,
        valid_guesses: &[Word<N>],
        possible_answers: &[Word<N>],
    ) -> (ranking: Vec<(Word<N>, usize)>)
        requires
            possible_answers@.len() * possible_answers@.len() <= usize::MAX,
        ensures
            ascending(ranking@),
            ranking@.to_multiset() == scored(
                valid_guesses@,
                naive_scores(valid_guesses@, possible_answers@),
            ).to_multiset(),
    {
        let mut totals: Vec<usize> = Vec::new();
        let mut k: usize = 0;
        while k < valid_guesses.len()
            invariant
                k <= valid_guesses@.len(),
                possible_answers@.len() * possible_answers@.len() <= usize::MAX,
                totals@.len() == k,
                forall|i: int|
                    0 <= i < k ==> totals@[i] == naive_scores(valid_guesses@, possible_answers@)[i],
            decreases valid_guesses@.len() - k,
        {
            totals.push(self.rank_guess(&valid_guesses[k], valid_guesses, possible_answers));
            k += 1;
        }
        assert(totals@ =~= naive_scores(valid_guesses@, possible_answers@));
        ranked(valid_guesses, &totals)
    }
}

} // verus!
