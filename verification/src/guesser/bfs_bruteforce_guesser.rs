//! Lookahead that tries every set of guesses in the order of its size, and
//! is content with a handful of answers.

use crate::guesser::{spelled, Lookup};
use crate::guesser_family::guess_set::{
    all_below, contains, count_survivors, holds, insert, left_after, len_of, listed, pair,
    reachable, set_len, single, with_guess, GuessSet, SearchExhausted, NO_GUESS,
};
use crate::guesser_family::PatternSource;
use crate::words::Word;
use std::collections::VecDeque;
use vstd::prelude::*;

verus! {

/// The search is content once this many answers are left.
pub const ENOUGH: usize = 3;

/// No set of the search has more guesses than this.
pub const DEEPEST: usize = 4;

/// A set of at most four guesses: a canonical set of at most three, and a
/// fourth guess beside a set of three.
pub type Entry = (GuessSet, usize);

/// The number of guesses of an entry.
pub open spec fn entry_len(entry: Entry) -> nat {
    if entry.1 == NO_GUESS {
        set_len(entry.0)
    } else {
        set_len(entry.0) + 1
    }
}

/// The set with one more guess: a bigger canonical set while there is room
/// in it, and the guess beside the set once it holds three.
pub open spec fn child(set: GuessSet, guess: usize) -> Entry {
    if set_len(set) < 3 {
        (with_guess(set, guess), NO_GUESS)
    } else {
        (set, guess)
    }
}

/// An entry that a search from `first` can reach.
pub open spec fn sound(entry: Entry, first: usize, valid: Seq<usize>, n: nat) -> bool {
    &&& reachable(entry.0, first, valid, n)
    &&& entry.1 == NO_GUESS || (set_len(entry.0) == 3 && listed(valid, entry.1) && !holds(
        entry.0,
        entry.1,
    ))
}

/// Whether the entry waits in the queue.
pub open spec fn waits(queue: Seq<Entry>, entry: Entry) -> bool {
    exists|i: int| 0 <= i < queue.len() && #[trigger] queue[i] == entry
}

/// Some valid guess, made after `first`, leaves at most `ENOUGH` answers.
pub open spec fn second_is_enough(
    words: Seq<Seq<char>>,
    first: usize,
    answer: int,
    valid: Seq<usize>,
    possible: Seq<usize>,
) -> bool {
    exists|j: int|
        0 <= j < valid.len() && #[trigger] valid[j] != first && left_after(
            words,
            pair(first, valid[j]),
            answer,
            possible,
        ) <= ENOUGH
}

/// Some two valid guesses, made after `first`, leave at most `ENOUGH`
/// answers.
pub open spec fn third_is_enough(
    words: Seq<Seq<char>>,
    first: usize,
    answer: int,
    valid: Seq<usize>,
    possible: Seq<usize>,
) -> bool {
    exists|i: int, j: int|
        0 <= i < valid.len() && 0 <= j < valid.len() && #[trigger] valid[i] != first
            && #[trigger] valid[j] != first && valid[i] != valid[j] && left_after(
            words,
            with_guess(pair(first, valid[i]), valid[j]),
            answer,
            possible,
        ) <= ENOUGH
}

/// The valid guesses offer three different guesses besides `first`.
pub open spec fn three_others(valid: Seq<usize>, first: usize) -> bool {
    exists|i: int, j: int, k: int|
        0 <= i < valid.len() && 0 <= j < valid.len() && 0 <= k < valid.len()
            && #[trigger] valid[i] != first && #[trigger] valid[j] != first
            && #[trigger] valid[k] != first && valid[i] != valid[j] && valid[i] != valid[k]
            && valid[j] != valid[k]
}

/// The depth that the exhaustive search gives `first` against `answer`: the
/// least number of guesses, `first` among them and at most three, that
/// leave at most `ENOUGH` possible answers; failing that, `DEEPEST`, which
/// the search can reach only where three more guesses exist.
pub open spec fn exhaustive_depth(
    words: Seq<Seq<char>>,
    first: usize,
    answer: int,
    valid: Seq<usize>,
    possible: Seq<usize>,
) -> Result<usize, SearchExhausted> {
    if left_after(words, single(first), answer, possible) <= ENOUGH {
        Ok(1)
    } else if second_is_enough(words, first, answer, valid, possible) {
        Ok(2)
    } else if third_is_enough(words, first, answer, valid, possible) {
        Ok(3)
    } else if three_others(valid, first) {
        Ok(DEEPEST)
    } else {
        Err(SearchExhausted)
    }
}

/// What holds of the sets that the search has looked at and gone on from:
/// each left more than `ENOUGH` answers, and each set that adds a valid
/// guess to it waits in the queue or was looked at in turn.
pub open spec fn gone_through(
    checked: Set<GuessSet>,
    queue: Seq<Entry>,
    words: Seq<Seq<char>>,
    answer: int,
    valid: Seq<usize>,
    possible: Seq<usize>,
) -> bool {
    &&& forall|set: GuessSet| #[trigger]
        checked.contains(set) ==> left_after(words, set, answer, possible) > ENOUGH
    &&& forall|set: GuessSet, j: int|
        #![trigger checked.contains(set), valid[j]]
        checked.contains(set) && 0 <= j < valid.len() && !holds(set, valid[j]) ==> waits(
            queue,
            child(set, valid[j]),
        ) || (set_len(set) < 3 && checked.contains(with_guess(set, valid[j])))
}

/// Once no entry of fewer than `k` guesses waits, every set of fewer than
/// `k` guesses has been looked at.
proof fn lemma_cleared(
    checked: Set<GuessSet>,
    queue: Seq<Entry>,
    words: Seq<Seq<char>>,
    first: usize,
    answer: int,
    valid: Seq<usize>,
    possible: Seq<usize>,
    k: int,
)
    requires
        first < words.len() <= usize::MAX,
        all_below(valid, words.len()),
        gone_through(checked, queue, words, answer, valid, possible),
        checked.contains(single(first)) || waits(queue, (single(first), NO_GUESS)),
        forall|i: int| 0 <= i < queue.len() ==> entry_len(#[trigger] queue[i]) >= k,
    ensures
        k >= 2 ==> checked.contains(single(first)),
        k >= 3 ==> forall|j: int|
            0 <= j < valid.len() && #[trigger] valid[j] != first ==> checked.contains(
                pair(first, valid[j]),
            ),
        k >= 4 ==> forall|i: int, j: int|
            0 <= i < valid.len() && 0 <= j < valid.len() && #[trigger] valid[i] != first
                && #[trigger] valid[j] != first && valid[i] != valid[j] ==> checked.contains(
                with_guess(pair(first, valid[i]), valid[j]),
            ),
{
    let root = single(first);
    if k >= 2 {
        if waits(queue, (root, NO_GUESS)) {
            let i = choose|i: int| 0 <= i < queue.len() && #[trigger] queue[i] == (root, NO_GUESS);
            assert(entry_len(queue[i]) >= k);
        }
    }
    if k >= 3 {
        assert forall|j: int| 0 <= j < valid.len() && #[trigger] valid[j] != first implies checked.contains(
            pair(first, valid[j]),
        ) by {
            assert(valid[j] < words.len());
            assert(checked.contains(root) && !holds(root, valid[j]));
            if waits(queue, child(root, valid[j])) {
                let i = choose|i: int|
                    0 <= i < queue.len() && #[trigger] queue[i] == child(root, valid[j]);
                assert(entry_len(queue[i]) >= k);
            }
        }
    }
    if k >= 4 {
        assert forall|i: int, j: int|
            0 <= i < valid.len() && 0 <= j < valid.len() && #[trigger] valid[i] != first
                && #[trigger] valid[j] != first && valid[i] != valid[j] implies checked.contains(
            with_guess(pair(first, valid[i]), valid[j]),
        ) by {
            let two = pair(first, valid[i]);
            assert(valid[i] < words.len() && valid[j] < words.len());
            assert(checked.contains(two) && !holds(two, valid[j]));
            if waits(queue, child(two, valid[j])) {
                let at = choose|at: int|
                    0 <= at < queue.len() && #[trigger] queue[at] == child(two, valid[j]);
                assert(entry_len(queue[at]) >= k);
            }
        }
    }
}

/// A reachable set of two guesses is `first` with one valid guess, and one
/// of three is `first` with two.
proof fn lemma_shape(set: GuessSet, first: usize, valid: Seq<usize>, n: nat)
    requires
        reachable(set, first, valid, n),
        n <= usize::MAX,
    ensures
        set_len(set) == 1 ==> set == single(first),
        set_len(set) == 2 ==> exists|j: int|
            0 <= j < valid.len() && #[trigger] valid[j] != first && set == pair(first, valid[j]),
        set_len(set) == 3 ==> exists|i: int, j: int|
            0 <= i < valid.len() && 0 <= j < valid.len() && #[trigger] valid[i] != first
                && #[trigger] valid[j] != first && valid[i] != valid[j] && set == with_guess(
                pair(first, valid[i]),
                valid[j],
            ),
{
    if set_len(set) == 2 {
        let x = if set.0 == first {
            set.1
        } else {
            set.0
        };
        assert(listed(valid, x));
        let j = choose|j: int| 0 <= j < valid.len() && #[trigger] valid[j] == x;
        assert(valid[j] != first && set == pair(first, valid[j]));
    } else if set_len(set) == 3 {
        let (x, y) = if set.0 == first {
            (set.1, set.2)
        } else if set.1 == first {
            (set.0, set.2)
        } else {
            (set.0, set.1)
        };
        assert(listed(valid, x) && listed(valid, y));
        let i = choose|i: int| 0 <= i < valid.len() && #[trigger] valid[i] == x;
        let j = choose|j: int| 0 <= j < valid.len() && #[trigger] valid[j] == y;
        assert(valid[i] != first && valid[j] != first && valid[i] != valid[j] && set
            == with_guess(pair(first, valid[i]), valid[j]));
    }
}

/// Puts every set that adds one valid guess to `seen` at the end of the
/// queue, in the order of the valid guesses.
fn expand(queue: &mut VecDeque<Entry>, seen: GuessSet, first: usize, valid: &[usize], n: usize)
    requires
        first < n,
        all_below(valid@, n as nat),
        reachable(seen, first, valid@, n as nat),
        1 <= set_len(seen) <= 3,
    ensures
        forall|j: int|
            0 <= j < valid@.len() && !holds(seen, #[trigger] valid@[j]) ==> waits(
                final(queue)@,
                child(seen, valid@[j]),
            ),
        final(queue)@.len() >= old(queue)@.len(),
        forall|i: int| 0 <= i < old(queue)@.len() ==> final(queue)@[i] == old(queue)@[i],
        forall|i: int|
            old(queue)@.len() <= i < final(queue)@.len() ==> sound(
                #[trigger] final(queue)@[i],
                first,
                valid@,
                n as nat,
            ) && entry_len(final(queue)@[i]) == set_len(seen) + 1,
        (exists|j: int| 0 <= j < valid@.len() && !holds(seen, #[trigger] valid@[j]))
            ==> final(queue)@.len() > old(queue)@.len(),
{
    let size = len_of(seen);
    let mut j: usize = 0;
    while j < valid.len()
        invariant
            j <= valid@.len(),
            first < n,
            size == set_len(seen),
            all_below(valid@, n as nat),
            reachable(seen, first, valid@, n as nat),
            1 <= set_len(seen) <= 3,
            forall|k: int|
                0 <= k < j && !holds(seen, #[trigger] valid@[k]) ==> waits(
                    queue@,
                    child(seen, valid@[k]),
                ),
            queue@.len() >= old(queue)@.len(),
            forall|i: int| 0 <= i < old(queue)@.len() ==> queue@[i] == old(queue)@[i],
            forall|i: int|
                old(queue)@.len() <= i < queue@.len() ==> sound(
                    #[trigger] queue@[i],
                    first,
                    valid@,
                    n as nat,
                ) && entry_len(queue@[i]) == set_len(seen) + 1,
            (exists|k: int| 0 <= k < j && !holds(seen, #[trigger] valid@[k])) ==> queue@.len()
                > old(queue)@.len(),
        decreases valid@.len() - j,
    {
        let guess = valid[j];
        if !contains(seen, guess) {
            let entry: Entry = if size < 3 {
                (insert(seen, guess), NO_GUESS)
            } else {
                (seen, guess)
            };
            proof {
                assert(listed(valid@, guess));
                assert(entry == child(seen, guess));
                assert(sound(entry, first, valid@, n as nat));
            }
            let ghost before = queue@;
            queue.push_back(entry);
            proof {
                assert(queue@[before.len() as int] == entry);
                assert forall|k: int|
                    0 <= k < j && !holds(seen, #[trigger] valid@[k]) implies waits(
                    queue@,
                    child(seen, valid@[k]),
                ) by {
                    let i = choose|i: int|
                        0 <= i < before.len() && #[trigger] before[i] == child(seen, valid@[k]);
                    assert(queue@[i] == child(seen, valid@[k]));
                }
            }
        }
        j += 1;
    }
}

/// The depth of `first` against `answer`, by a search that looks at the
/// sets of guesses in the order in which it made them: the set of `first`
/// alone, then every set of two, and so on. A set of `DEEPEST` guesses ends
/// the search, and so does a set that leaves at most `ENOUGH` answers; any
/// other set is followed by every set that adds one valid guess to it. The
/// search fails where the queue runs dry.
pub fn exhaustive_search<S: PatternSource>(
    src: &S,
    first: usize,
    answer: usize,
    valid: &[usize],
    possible: &[usize],
) -> (depth: Result<usize, SearchExhausted>)
    requires
        src.wf(),
        first < src.words().len(),
        answer < src.words().len(),
        all_below(valid@, src.words().len()),
        all_below(possible@, src.words().len()),
    ensures
        depth == exhaustive_depth(src.words(), first, answer as int, valid@, possible@),
{
    let n = src.size();
    let root: GuessSet = (first, NO_GUESS, NO_GUESS);
    let mut queue: VecDeque<Entry> = VecDeque::new();
    queue.push_back((root, NO_GUESS));
    assert(queue@[0] == (root, NO_GUESS));
    let ghost mut checked: Set<GuessSet> = Set::empty();
    let ghost mut k: int = 1;
    let ghost mut small: int = 1;
    loop
        invariant
            src.wf(),
            n == src.words().len(),
            first < n,
            answer < n,
            all_below(valid@, n as nat),
            all_below(possible@, n as nat),
            root == single(first),
            1 <= k <= 4,
            0 <= small <= queue@.len(),
            forall|i: int|
                0 <= i < queue@.len() ==> sound(#[trigger] queue@[i], first, valid@, n as nat),
            forall|i: int| 0 <= i < small ==> entry_len(#[trigger] queue@[i]) == k,
            forall|i: int| small <= i < queue@.len() ==> entry_len(#[trigger] queue@[i]) == k + 1,
            gone_through(checked, queue@, src.words(), answer as int, valid@, possible@),
            checked.contains(root) || waits(queue@, (root, NO_GUESS)),
        decreases 4 - k, small,
    {
        let ghost before = queue@;
        proof {
            if small == 0 && queue@.len() > 0 {
                assert(entry_len(queue@[0]) == k + 1);
                assert(sound(queue@[0], first, valid@, n as nat));
                k = k + 1;
                small = queue@.len() as int;
            }
        }
        match queue.pop_front() {
            None => {
                proof {
                    lemma_cleared(
                        checked,
                        before,
                        src.words(),
                        first,
                        answer as int,
                        valid@,
                        possible@,
                        4,
                    );
                    if three_others(valid@, first) {
                        let (a, b, c) = choose|a: int, b: int, c: int|
                            0 <= a < valid@.len() && 0 <= b < valid@.len() && 0 <= c < valid@.len()
                                && #[trigger] valid@[a] != first && #[trigger] valid@[b] != first
                                && #[trigger] valid@[c] != first && valid@[a] != valid@[b]
                                && valid@[a] != valid@[c] && valid@[b] != valid@[c];
                        let three = with_guess(pair(first, valid@[a]), valid@[b]);
                        assert(valid@[a] < n && valid@[b] < n && valid@[c] < n);
                        assert(checked.contains(three) && !holds(three, valid@[c]));
                        assert(waits(before, child(three, valid@[c])));
                    }
                }
                return Err(SearchExhausted);
            },
            Some(entry) => {
                proof {
                    assert(entry == before[0]);
                    assert(sound(entry, first, valid@, n as nat));
                    assert(entry_len(entry) == k);
                    assert forall|i: int| 0 <= i < queue@.len() implies queue@[i] == before[i
                        + 1] by {}
                    assert forall|i: int| 0 <= i < before.len() implies entry_len(
                        #[trigger] before[i],
                    ) >= k by {}
                    lemma_cleared(
                        checked,
                        before,
                        src.words(),
                        first,
                        answer as int,
                        valid@,
                        possible@,
                        k,
                    );
                    lemma_shape(entry.0, first, valid@, n as nat);
                }
                let seen = entry.0;
                if entry.1 != NO_GUESS {
                    proof {
                        let (i, j) = choose|i: int, j: int|
                            0 <= i < valid@.len() && 0 <= j < valid@.len() && #[trigger] valid@[i]
                                != first && #[trigger] valid@[j] != first && valid@[i] != valid@[j]
                                && seen == with_guess(pair(first, valid@[i]), valid@[j]);
                        let l = choose|l: int| 0 <= l < valid@.len() && #[trigger] valid@[l] == entry.1;
                        assert(valid@[i] < n && valid@[j] < n && valid@[l] < n);
                        assert(valid@[l] != first && valid@[l] != valid@[i] && valid@[l]
                            != valid@[j]);
                    }
                    return Ok(DEEPEST);
                }
                let size = len_of(seen);
                let left = count_survivors(src, seen, answer, possible);
                if left <= ENOUGH {
                    return Ok(size);
                }
                let ghost popped = queue@;
                expand(&mut queue, seen, first, valid, n);
                proof {
                    let old_checked = checked;
                    checked = checked.insert(seen);
                    small = small - 1;
                    assert forall|set: GuessSet, j: int|
                        #![trigger checked.contains(set), valid@[j]]
                        checked.contains(set) && 0 <= j < valid@.len() && !holds(
                            set,
                            valid@[j],
                        ) implies waits(queue@, child(set, valid@[j])) || (set_len(set) < 3
                        && checked.contains(with_guess(set, valid@[j]))) by {
                        if set != seen {
                            assert(old_checked.contains(set));
                            if waits(before, child(set, valid@[j])) {
                                let i = choose|i: int|
                                    0 <= i < before.len() && #[trigger] before[i] == child(
                                        set,
                                        valid@[j],
                                    );
                                if i > 0 {
                                    assert(queue@[i - 1] == child(set, valid@[j]));
                                }
                            }
                        }
                    }
                    if waits(before, (root, NO_GUESS)) {
                        let i = choose|i: int|
                            0 <= i < before.len() && #[trigger] before[i] == (root, NO_GUESS);
                        if i > 0 {
                            assert(queue@[i - 1] == (root, NO_GUESS));
                        }
                    }
                }
            },
        }
    }
}

/// The sum of the depths that the exhaustive search gives `first` against
/// the first `n` possible answers. It fails where one search fails.
pub open spec fn exhaustive_sum(
    words: Seq<Seq<char>>,
    first: usize,
    valid: Seq<usize>,
    possible: Seq<usize>,
    n: int,
) -> Result<nat, SearchExhausted>
    decreases n,
{
    if n <= 0 {
        Ok(0)
    } else {
        match (
            exhaustive_sum(words, first, valid, possible, n - 1),
            exhaustive_depth(words, first, possible[n - 1] as int, valid, possible),
        ) {
            (Ok(sum), Ok(depth)) => Ok((sum + depth) as nat),
            _ => Err(SearchExhausted),
        }
    }
}

/// A sum that has failed stays failed, and a sum of `n` depths lies between
/// `n` and `DEEPEST` times `n`.
pub proof fn lemma_exhaustive_sum(
    words: Seq<Seq<char>>,
    first: usize,
    valid: Seq<usize>,
    possible: Seq<usize>,
    m: int,
    n: int,
)
    requires
        0 <= m <= n,
    ensures
        exhaustive_sum(words, first, valid, possible, m) is Err ==> exhaustive_sum(
            words,
            first,
            valid,
            possible,
            n,
        ) is Err,
        exhaustive_sum(words, first, valid, possible, n) is Ok ==> n <= exhaustive_sum(
            words,
            first,
            valid,
            possible,
            n,
        )->Ok_0 <= DEEPEST * n,
    decreases n,
{
    if n > 0 {
        if m < n {
            lemma_exhaustive_sum(words, first, valid, possible, m, n - 1);
        } else {
            lemma_exhaustive_sum(words, first, valid, possible, n - 1, n - 1);
        }
    }
}

/// Ranks guesses by exhaustive lookahead.
#[derive(Debug, Clone, Copy, Default)]
pub struct BFSBruteforceGuesser;

impl BFSBruteforceGuesser {
    /// The depth of the guess at `first_guess` against the answer at
    /// `answer`, both places in `words`, as are the valid guesses and the
    /// possible answers.
    pub fn bar<const N: usize>(
        answer: usize,
        first_guess: usize,
        words: &[Word<N>],
        valid_guesses: &[usize],
        possible_answers: &[usize],
    ) -> (depth: Result<usize, SearchExhausted>)
        requires
            first_guess < words@.len(),
            answer < words@.len(),
            all_below(valid_guesses@, words@.len()),
            all_below(possible_answers@, words@.len()),
        ensures
            depth == exhaustive_depth(
                spelled(words@),
                first_guess,
                answer as int,
                valid_guesses@,
                possible_answers@,
            ),
    {
        let src = Lookup { words, cache: None };
        exhaustive_search(&src, first_guess, answer, valid_guesses, possible_answers)
    }

    /// The score of the guess at `guess`: the sum of its depths against the
    /// possible answers.
    pub fn rank_guess<const N: usize>(
        guess: usize,
        words: &[Word<N>],
        valid_guesses: &[usize],
        possible_answers: &[usize],
    ) -> (total: Result<usize, SearchExhausted>)
        requires
            guess < words@.len(),
            all_below(valid_guesses@, words@.len()),
            all_below(possible_answers@, words@.len()),
            possible_answers@.len() * DEEPEST <= usize::MAX,
        ensures
            match total {
                Ok(sum) => exhaustive_sum(
                    spelled(words@),
                    guess,
                    valid_guesses@,
                    possible_answers@,
                    possible_answers@.len() as int,
                ) == Ok::<nat, SearchExhausted>(sum as nat),
                Err(_) => exhaustive_sum(
                    spelled(words@),
                    guess,
                    valid_guesses@,
                    possible_answers@,
                    possible_answers@.len() as int,
                ) is Err,
            },
    {
        let mut sum: usize = 0;
        let mut k: usize = 0;
        while k < possible_answers.len()
            invariant
                k <= possible_answers@.len(),
                guess < words@.len(),
                all_below(valid_guesses@, words@.len()),
                all_below(possible_answers@, words@.len()),
                possible_answers@.len() * DEEPEST <= usize::MAX,
                exhaustive_sum(spelled(words@), guess, valid_guesses@, possible_answers@, k as int)
                    == Ok::<nat, SearchExhausted>(sum as nat),
            decreases possible_answers@.len() - k,
        {
            proof {
                let all = spelled(words@);
                lemma_exhaustive_sum(
                    all,
                    guess,
                    valid_guesses@,
                    possible_answers@,
                    k as int,
                    k as int,
                );
                lemma_exhaustive_sum(
                    all,
                    guess,
                    valid_guesses@,
                    possible_answers@,
                    k as int + 1,
                    possible_answers@.len() as int,
                );
                lemma_exhaustive_sum(
                    all,
                    guess,
                    valid_guesses@,
                    possible_answers@,
                    k as int + 1,
                    k as int + 1,
                );
            }
            match Self::bar(possible_answers[k], guess, words, valid_guesses, possible_answers) {
                Ok(depth) => {
                    sum += depth;
                },
                Err(e) => {
                    return Err(e);
                },
            }
            k += 1;
        }
        Ok(sum)
    }
}

} // verus!
