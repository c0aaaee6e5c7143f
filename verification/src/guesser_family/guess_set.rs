//! Sets of guesses in canonical form, the answers that survive them, and the
//! depth that a lookahead search assigns to a first guess.

use crate::guesser_family::{alike, PatternSource};
use vstd::prelude::*;

verus! {

/// A search stops as soon as this many answers are left.
pub const LEN_TO_FIND: usize = 1;

/// No search looks at more guesses than this.
pub const MAX_DEPTH: usize = 3;

/// The slot of a guess set that holds no guess.
pub const NO_GUESS: usize = usize::MAX;

/// A set of at most three guesses, each given by its index in the word list:
/// the indices in ascending order, the unused slots last.
pub type GuessSet = (usize, usize, usize);

/// The search ran out of guess sets before it reached its depth limit: the
/// word list offers too few guesses to go on.
#[derive(Debug, Clone, Copy, PartialEq, Eq)]
pub struct SearchExhausted;

/// The number of guesses in a set.
pub open spec fn set_len(set: GuessSet) -> nat {
    if set.0 == NO_GUESS {
        0
    } else if set.1 == NO_GUESS {
        1
    } else if set.2 == NO_GUESS {
        2
    } else {
        3
    }
}

/// A set is canonical when it holds a guess, its guesses ascend strictly and
/// its unused slots come last: one set of guesses has one canonical form,
/// whatever the order in which the guesses were made.
pub open spec fn canonical(set: GuessSet) -> bool {
    &&& set.0 != NO_GUESS
    &&& set.1 == NO_GUESS ==> set.2 == NO_GUESS
    &&& set.1 != NO_GUESS ==> set.0 < set.1
    &&& set.2 != NO_GUESS ==> set.1 < set.2
}

/// Whether the set holds the guess.
pub open spec fn holds(set: GuessSet, guess: usize) -> bool {
    guess != NO_GUESS && (set.0 == guess || set.1 == guess || set.2 == guess)
}

/// Every guess of the set is an index below `n`.
pub open spec fn in_range(set: GuessSet, n: nat) -> bool {
    &&& set.0 != NO_GUESS ==> set.0 < n
    &&& set.1 != NO_GUESS ==> set.1 < n
    &&& set.2 != NO_GUESS ==> set.2 < n
}

/// The set of one guess.
pub open spec fn single(guess: usize) -> GuessSet {
    (guess, NO_GUESS, NO_GUESS)
}

/// The canonical set with one more guess, for a set of one or two guesses
/// that does not hold it.
pub open spec fn with_guess(set: GuessSet, guess: usize) -> GuessSet {
    if set.1 == NO_GUESS {
        if guess < set.0 {
            (guess, set.0, NO_GUESS)
        } else {
            (set.0, guess, NO_GUESS)
        }
    } else if guess < set.0 {
        (guess, set.0, set.1)
    } else if guess < set.1 {
        (set.0, guess, set.1)
    } else {
        (set.0, set.1, guess)
    }
}

/// The canonical set of two different guesses.
pub open spec fn pair(a: usize, b: usize) -> GuessSet {
    with_guess(single(a), b)
}

/// No guess of the set can tell `other` from `answer`.
pub open spec fn keeps(words: Seq<Seq<char>>, set: GuessSet, answer: int, other: int) -> bool {
    &&& set.0 != NO_GUESS ==> alike(words, set.0 as int, answer, other)
    &&& set.1 != NO_GUESS ==> alike(words, set.1 as int, answer, other)
    &&& set.2 != NO_GUESS ==> alike(words, set.2 as int, answer, other)
}

/// How many of the first `n` possible answers are still consistent with the
/// feedback that the guesses of the set earn against `answer`.
pub open spec fn survivors(
    words: Seq<Seq<char>>,
    set: GuessSet,
    answer: int,
    possible: Seq<usize>,
    n: int,
) -> nat
    decreases n,
{
    if n <= 0 {
        0
    } else {
        let rest = survivors(words, set, answer, possible, n - 1);
        if keeps(words, set, answer, possible[n - 1] as int) {
            rest + 1
        } else {
            rest
        }
    }
}

/// How many possible answers survive the set.
pub open spec fn left_after(
    words: Seq<Seq<char>>,
    set: GuessSet,
    answer: int,
    possible: Seq<usize>,
) -> nat {
    survivors(words, set, answer, possible, possible.len() as int)
}

/// Some valid guess, made after `first`, leaves at most `LEN_TO_FIND`
/// answers.
pub open spec fn narrowed_by_second(
    words: Seq<Seq<char>>,
    first: usize,
    answer: int,
    valid: Seq<usize>,
    possible: Seq<usize>,
) -> bool {
    exists|j: int|
        0 <= j < valid.len() && #[trigger] valid[j] != first && left_after(
            words,
            pair(first, valid[j]),
            answer,
            possible,
        ) <= LEN_TO_FIND
}

/// The valid guesses offer two different guesses besides `first`.
pub open spec fn two_others(valid: Seq<usize>, first: usize) -> bool {
    exists|i: int, j: int|
        0 <= i < valid.len() && 0 <= j < valid.len() && #[trigger] valid[i] != first
            && #[trigger] valid[j] != first && valid[i] != valid[j]
}

/// The depth of `first` against `answer`: the least number of guesses,
/// `first` among them, that leave at most `LEN_TO_FIND` possible answers,
/// capped at `MAX_DEPTH`. One guess is enough if `first` alone narrows that
/// far, two if some second guess does. Otherwise the search goes on to the
/// depth limit, which it can reach only where two more guesses exist.
pub open spec fn search_depth(
    words: Seq<Seq<char>>,
    first: usize,
    answer: int,
    valid: Seq<usize>,
    possible: Seq<usize>,
) -> Result<usize, SearchExhausted> {
    if left_after(words, single(first), answer, possible) <= LEN_TO_FIND {
        Ok(1)
    } else if narrowed_by_second(words, first, answer, valid, possible) {
        Ok(2)
    } else if two_others(valid, first) {
        Ok(MAX_DEPTH)
    } else {
        Err(SearchExhausted)
    }
}

/// Every index of the list is below `n`.
pub open spec fn all_below(list: Seq<usize>, n: nat) -> bool {
    forall|i: int| 0 <= i < list.len() ==> #[trigger] list[i] < n
}

/// The number is one of the list.
pub open spec fn listed(list: Seq<usize>, x: usize) -> bool {
    exists|j: int| 0 <= j < list.len() && #[trigger] list[j] == x
}

/// A set that a search from `first` can reach: canonical, holding `first`,
/// and made of valid guesses besides.
pub open spec fn reachable(set: GuessSet, first: usize, valid: Seq<usize>, n: nat) -> bool {
    &&& canonical(set)
    &&& in_range(set, n)
    &&& holds(set, first)
    &&& set.0 == first || listed(valid, set.0)
    &&& set.1 == NO_GUESS || set.1 == first || listed(valid, set.1)
    &&& set.2 == NO_GUESS || set.2 == first || listed(valid, set.2)
}

/// The number of guesses in a set.
pub fn len_of(set: GuessSet) -> (n: usize)
    ensures
        n == set_len(set),
{
    if set.0 == NO_GUESS {
        0
    } else if set.1 == NO_GUESS {
        1
    } else if set.2 == NO_GUESS {
        2
    } else {
        3
    }
}

/// Whether the set holds the guess.
pub fn contains(set: GuessSet, guess: usize) -> (yes: bool)
    ensures
        yes == holds(set, guess),
{
    guess != NO_GUESS && (set.0 == guess || set.1 == guess || set.2 == guess)
}

/// Puts one more guess into a set of one or two guesses, in its place.
pub fn insert(set: GuessSet, guess: usize) -> (bigger: GuessSet)
    requires
        canonical(set),
        set_len(set) < MAX_DEPTH,
        guess != NO_GUESS,
        !holds(set, guess),
    ensures
        bigger == with_guess(set, guess),
        canonical(bigger),
        set_len(bigger) == set_len(set) + 1,
        forall|g: usize| holds(bigger, g) == (holds(set, g) || g == guess),
{
    if set.1 == NO_GUESS {
        if guess < set.0 {
            (guess, set.0, NO_GUESS)
        } else {
            (set.0, guess, NO_GUESS)
        }
    } else if guess < set.0 {
        (guess, set.0, set.1)
    } else if guess < set.1 {
        (set.0, guess, set.1)
    } else {
        (set.0, set.1, guess)
    }
}

/// Counts the possible answers that no guess of the set can tell from
/// `answer`.
pub fn count_survivors<S: PatternSource>(
    src: &S,
    set: GuessSet,
    answer: usize,
    possible: &[usize],
) -> (left: usize)
    requires
        src.wf(),
        in_range(set, src.words().len()),
        answer < src.words().len(),
        all_below(possible@, src.words().len()),
    ensures
        left == left_after(src.words(), set, answer as int, possible@),
        left <= possible@.len(),
{
    let mut left: usize = 0;
    let mut i: usize = 0;
    while i < possible.len()
        invariant
            i <= possible@.len(),
            left <= i,
            left == survivors(src.words(), set, answer as int, possible@, i as int),
            src.wf(),
            in_range(set, src.words().len()),
            answer < src.words().len(),
            all_below(possible@, src.words().len()),
        decreases possible@.len() - i,
    {
        let other = possible[i];
        let kept = (set.0 == NO_GUESS || src.same_feedback(set.0, answer, other)) && (set.1
            == NO_GUESS || src.same_feedback(set.1, answer, other)) && (set.2 == NO_GUESS
            || src.same_feedback(set.2, answer, other));
        if kept {
            left += 1;
        }
        i += 1;
    }
    left
}

/// A reachable set of three guesses shows that two valid guesses besides
/// `first` exist.
pub proof fn lemma_full_set(set: GuessSet, first: usize, valid: Seq<usize>, n: nat)
    requires
        reachable(set, first, valid, n),
        set_len(set) == 3,
    ensures
        two_others(valid, first),
{
    let (x, y) = if set.0 == first {
        (set.1, set.2)
    } else if set.1 == first {
        (set.0, set.2)
    } else {
        (set.0, set.1)
    };
    assert(listed(valid, x) && listed(valid, y));
    let i = choose|i: int| 0 <= i < valid.len() && #[trigger] valid[i] == x;
    let j = choose|j: int| 0 <= j < valid.len() && #[trigger] valid[j] == y;
    assert(valid[i] != first && valid[j] != first && valid[i] != valid[j]);
}

/// A reachable set of two guesses, with a valid guess that it does not hold,
/// shows that two valid guesses besides `first` exist.
pub proof fn lemma_found(set: GuessSet, first: usize, valid: Seq<usize>, n: nat)
    requires
        reachable(set, first, valid, n),
        set_len(set) == 2,
        exists|j: int| 0 <= j < valid.len() && !holds(set, #[trigger] valid[j]),
        all_below(valid, n),
        n <= usize::MAX,
    ensures
        two_others(valid, first),
{
    let x = if set.0 == first {
        set.1
    } else {
        set.0
    };
    assert(listed(valid, x));
    let i = choose|i: int| 0 <= i < valid.len() && #[trigger] valid[i] == x;
    let j = choose|j: int| 0 <= j < valid.len() && !holds(set, #[trigger] valid[j]);
    assert(valid[j] < n);
    assert(valid[i] != first && valid[j] != first && valid[i] != valid[j]);
}

} // verus!
