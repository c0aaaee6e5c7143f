//! A search that takes the guess sets in the order in which it found them,
//! and keeps a memo of the answers that each set leaves.

use crate::guesser_family::guess_set::{
    all_below, canonical, contains, count_survivors, holds, in_range, insert, left_after, len_of,
    lemma_found, lemma_full_set, listed, narrowed_by_second, pair, reachable, search_depth,
    set_len, single, two_others, with_guess, GuessSet, SearchExhausted, LEN_TO_FIND, MAX_DEPTH,
    NO_GUESS,
};
use crate::guesser_family::PatternSource;
use std::collections::HashMap;
use std::collections::VecDeque;
use vstd::prelude::*;

verus! {

/// The largest word list whose guess sets have keys of 64 bits: the fourth
/// power of its length is the most that fits.
pub const MAX_WORDS: usize = 65_535;

/// The key of a guess set among `size` words. With the guesses of the set
/// listed greatest first, the first of `n` guesses weighs `size` to the
/// power `n`, the next one power less, and the last weighs `size`.
pub open spec fn set_key(set: GuessSet, size: nat) -> int {
    if set.0 == NO_GUESS {
        0
    } else if set.1 == NO_GUESS {
        set.0 * size
    } else if set.2 == NO_GUESS {
        set.1 * (size * size) + set.0 * size
    } else {
        set.2 * (size * size * size) + set.1 * (size * size) + set.0 * size
    }
}

/// The guesses of a set as the digits of one number in base `size`, the
/// greatest guess weighing most: the key is this number times `size`.
pub open spec fn set_number(set: GuessSet, size: nat) -> int {
    if set.0 == NO_GUESS {
        0
    } else if set.1 == NO_GUESS {
        set.0 as int
    } else if set.2 == NO_GUESS {
        set.1 * size + set.0
    } else {
        (set.2 * size + set.1) * size + set.0
    }
}

/// A number has one way to be written as a multiple of `b` and a rest below
/// `b`.
pub proof fn lemma_split(q1: int, r1: int, q2: int, r2: int, b: int)
    requires
        0 <= r1 < b,
        0 <= r2 < b,
        q1 * b + r1 == q2 * b + r2,
    ensures
        q1 == q2,
        r1 == r2,
{
    assert(q1 == q2) by (nonlinear_arith)
        requires
            0 <= r1 < b,
            0 <= r2 < b,
            q1 * b + r1 == q2 * b + r2,
    ;
}

/// The key of a canonical set is its number times `size`, and the number
/// tells how many guesses the set has: it is below `size` for one guess,
/// below the square of `size` for two, and at least that square for three.
pub proof fn lemma_key_is_number(set: GuessSet, size: nat)
    requires
        canonical(set),
        in_range(set, size),
    ensures
        set_key(set, size) == set_number(set, size) * size,
        set_len(set) == 1 ==> set_number(set, size) < size,
        set_len(set) == 2 ==> size <= set_number(set, size) < size * size,
        set_len(set) == 3 ==> size * size <= set_number(set, size) < size * size * size,
{
    let s = size as int;
    let a = set.0 as int;
    let b = set.1 as int;
    let c = set.2 as int;
    if set.1 == NO_GUESS {
    } else if set.2 == NO_GUESS {
        assert(b * (s * s) + a * s == (b * s + a) * s) by (nonlinear_arith);
        assert(s <= b * s + a < s * s) by (nonlinear_arith)
            requires
                0 <= a < b < s,
        ;
    } else {
        assert(c * (s * s * s) + b * (s * s) + a * s == ((c * s + b) * s + a) * s)
            by (nonlinear_arith);
        assert(s * s <= (c * s + b) * s + a < s * s * s) by (nonlinear_arith)
            requires
                0 <= a < b < c < s,
        ;
    }
}

/// No two canonical sets over one word list share a key, whether they have
/// the same number of guesses or not.
pub proof fn lemma_key_injective(a: GuessSet, b: GuessSet, size: nat)
    requires
        canonical(a),
        canonical(b),
        in_range(a, size),
        in_range(b, size),
        set_key(a, size) == set_key(b, size),
    ensures
        a == b,
{
    let s = size as int;
    lemma_key_is_number(a, size);
    lemma_key_is_number(b, size);
    let x = set_number(a, size) as int;
    let y = set_number(b, size) as int;
    assert(x == y) by (nonlinear_arith)
        requires
            x * s == y * s,
            s > 0,
    ;
    assert(s * s >= s) by (nonlinear_arith)
        requires
            s > 0,
    ;
    assert(set_len(a) == set_len(b));
    if set_len(a) == 2 {
        lemma_split(a.1 as int, a.0 as int, b.1 as int, b.0 as int, s);
    } else if set_len(a) == 3 {
        lemma_split(
            a.2 * s + a.1,
            a.0 as int,
            b.2 * s + b.1,
            b.0 as int,
            s,
        );
        lemma_split(a.2 as int, a.1 as int, b.2 as int, b.1 as int, s);
    }
}

/// The memo is right about every guess set whose key it holds: the number
/// under the key is the number of possible answers that the set leaves.
pub open spec fn remembers(
    memo: Map<u64, usize>,
    words: Seq<Seq<char>>,
    answer: int,
    possible: Seq<usize>,
) -> bool {
    forall|set: GuessSet|
        canonical(set) && in_range(set, words.len()) && #[trigger] memo.dom().contains(
            set_key(set, words.len()) as u64,
        ) ==> memo[set_key(set, words.len()) as u64] == left_after(words, set, answer, possible)
}

/// The memo `after` holds all that `before` held, unchanged.
pub open spec fn extends(after: Map<u64, usize>, before: Map<u64, usize>) -> bool {
    forall|key: u64| #[trigger]
        before.dom().contains(key) ==> after.dom().contains(key) && after[key] == before[key]
}

/// The key of a guess set in the memo.
pub fn key_of(guesses: &GuessSet, size: usize) -> (key: u64)
    requires
        size <= MAX_WORDS,
        in_range(*guesses, size as nat),
    ensures
        key == set_key(*guesses, size as nat),
{
    let s: u64 = size as u64;
    proof {
        assert(s * s <= 4294836225 && s * s * s <= 281462092005375) by (nonlinear_arith)
            requires
                0 <= s <= 65535,
        ;
    }
    if guesses.0 == NO_GUESS {
        0
    } else if guesses.1 == NO_GUESS {
        proof {
            assert(guesses.0 * s <= 65534 * 65535) by (nonlinear_arith)
                requires
                    0 <= guesses.0 <= 65534,
                    0 <= s <= 65535,
            ;
        }
        guesses.0 as u64 * s
    } else if guesses.2 == NO_GUESS {
        proof {
            assert(guesses.0 * s <= 65534 * 65535 && guesses.1 * (s * s) <= 65534 * 4294836225)
                by (nonlinear_arith)
                requires
                    0 <= guesses.0 <= 65534,
                    0 <= guesses.1 <= 65534,
                    0 <= s <= 65535,
                    0 <= s * s <= 4294836225,
            ;
        }
        guesses.1 as u64 * (s * s) + guesses.0 as u64 * s
    } else {
        proof {
            assert(guesses.0 * s <= 65534 * 65535 && guesses.1 * (s * s) <= 65534 * 4294836225
                && guesses.2 * (s * s * s) <= 65534 * 281462092005375) by (nonlinear_arith)
                requires
                    0 <= guesses.0 <= 65534,
                    0 <= guesses.1 <= 65534,
                    0 <= guesses.2 <= 65534,
                    0 <= s <= 65535,
                    0 <= s * s <= 4294836225,
                    0 <= s * s * s <= 281462092005375,
            ;
        }
        guesses.2 as u64 * (s * s * s) + guesses.1 as u64 * (s * s) + guesses.0 as u64 * s
    }
}

/// The number of possible answers that the set leaves, from the memo
/// where it holds the set, and counted and written to the memo where it
/// does not.
pub fn count_with_memo<S: PatternSource>(
    src: &S,
    set: GuessSet,
    answer: usize,
    possible: &[usize],
    cache: &mut HashMap<u64, usize>,
) -> (left: usize)
    requires
        src.wf(),
        src.words().len() <= MAX_WORDS,
        canonical(set),
        in_range(set, src.words().len()),
        answer < src.words().len(),
        all_below(possible@, src.words().len()),
        remembers(old(cache)@, src.words(), answer as int, possible@),
    ensures
        left == left_after(src.words(), set, answer as int, possible@),
        remembers(final(cache)@, src.words(), answer as int, possible@),
        extends(final(cache)@, old(cache)@),
        final(cache)@.dom().contains(set_key(set, src.words().len()) as u64),
{
    broadcast use vstd::std_specs::hash::group_hash_axioms;

    let key = key_of(&set, src.size());
    proof {
        lemma_key_fits(set, src.words().len());
        assert(key == set_key(set, src.words().len()) as u64);
    }
    match cache.get(&key) {
        Some(left) => {
            assert(cache@.dom().contains(key));
            *left
        },
        None => {
            let left = count_survivors(src, set, answer, possible);
            let ghost before = cache@;
            cache.insert(key, left);
            proof {
                assert forall|other: GuessSet|
                    canonical(other) && in_range(other, src.words().len())
                        && #[trigger] cache@.dom().contains(
                        set_key(other, src.words().len()) as u64,
                    ) implies cache@[set_key(other, src.words().len()) as u64] == left_after(
                    src.words(),
                    other,
                    answer as int,
                    possible@,
                ) by {
                    lemma_key_fits(other, src.words().len());
                    if set_key(other, src.words().len()) as u64 == key {
                        lemma_key_injective(other, set, src.words().len());
                    } else {
                        assert(before.dom().contains(set_key(other, src.words().len()) as u64));
                    }
                }
            }
            left
        },
    }
}

/// Looks at every set that adds one valid guess to `seen`, in the order
/// of the valid guesses. The first that leaves at most `LEN_TO_FIND`
/// answers ends the search; every other one joins the end of the queue.
fn expand<S: PatternSource>(
    src: &S,
    queue: &mut VecDeque<GuessSet>,
    seen: GuessSet,
    first: usize,
    answer: usize,
    valid: &[usize],
    possible: &[usize],
    cache: &mut HashMap<u64, usize>,
) -> (found: bool)
    requires
        src.wf(),
        src.words().len() <= MAX_WORDS,
        first < src.words().len(),
        answer < src.words().len(),
        all_below(valid@, src.words().len()),
        all_below(possible@, src.words().len()),
        reachable(seen, first, valid@, src.words().len()),
        set_len(seen) < MAX_DEPTH,
        remembers(old(cache)@, src.words(), answer as int, possible@),
    ensures
        remembers(final(cache)@, src.words(), answer as int, possible@),
        extends(final(cache)@, old(cache)@),
        found ==> exists|j: int|
            0 <= j < valid@.len() && !holds(seen, #[trigger] valid@[j]) && left_after(
                src.words(),
                with_guess(seen, valid@[j]),
                answer as int,
                possible@,
            ) <= LEN_TO_FIND,
        !found ==> forall|j: int|
            0 <= j < valid@.len() && !holds(seen, #[trigger] valid@[j]) ==> left_after(
                src.words(),
                with_guess(seen, valid@[j]),
                answer as int,
                possible@,
            ) > LEN_TO_FIND,
        !found && (exists|j: int| 0 <= j < valid@.len() && !holds(seen, #[trigger] valid@[j]))
            ==> final(queue)@.len() > old(queue)@.len(),
        final(queue)@.len() >= old(queue)@.len(),
        forall|i: int| 0 <= i < old(queue)@.len() ==> final(queue)@[i] == old(queue)@[i],
        forall|i: int|
            old(queue)@.len() <= i < final(queue)@.len() ==> reachable(
                #[trigger] final(queue)@[i],
                first,
                valid@,
                src.words().len(),
            ) && set_len(final(queue)@[i]) == set_len(seen) + 1,
{
    let mut j: usize = 0;
    while j < valid.len()
        invariant
            j <= valid@.len(),
            src.wf(),
            src.words().len() <= MAX_WORDS,
            first < src.words().len(),
            answer < src.words().len(),
            all_below(valid@, src.words().len()),
            all_below(possible@, src.words().len()),
            reachable(seen, first, valid@, src.words().len()),
            set_len(seen) < MAX_DEPTH,
            remembers(cache@, src.words(), answer as int, possible@),
            extends(cache@, old(cache)@),
            forall|k: int|
                0 <= k < j && !holds(seen, #[trigger] valid@[k]) ==> left_after(
                    src.words(),
                    with_guess(seen, valid@[k]),
                    answer as int,
                    possible@,
                ) > LEN_TO_FIND,
            (exists|k: int| 0 <= k < j && !holds(seen, #[trigger] valid@[k])) ==> queue@.len()
                > old(queue)@.len(),
            queue@.len() >= old(queue)@.len(),
            forall|i: int| 0 <= i < old(queue)@.len() ==> queue@[i] == old(queue)@[i],
            forall|i: int|
                old(queue)@.len() <= i < queue@.len() ==> reachable(
                    #[trigger] queue@[i],
                    first,
                    valid@,
                    src.words().len(),
                ) && set_len(queue@[i]) == set_len(seen) + 1,
        decreases valid@.len() - j,
    {
        let guess = valid[j];
        if !contains(seen, guess) {
            let next = insert(seen, guess);
            let left = count_with_memo(src, next, answer, possible, cache);
            if left <= LEN_TO_FIND {
                return true;
            }
            proof {
                assert(listed(valid@, guess));
                assert(reachable(next, first, valid@, src.words().len()));
            }
            queue.push_back(next);
        }
        j += 1;
    }
    false
}

/// The depth of `guess` against `answer`, by a search over sets of
/// guesses in the order in which they were found. It ends with the size
/// of the first set found to leave at most `LEN_TO_FIND` answers, or
/// with `MAX_DEPTH` once a set of that size comes up, and fails where
/// the queue runs dry before either happens. The memo belongs to
/// `answer` and to the possible answers: every count that the search
/// needs is looked up there first, and written there once counted.
pub fn oldest_first_depth<S: PatternSource>(
    src: &S,
    guess: usize,
    answer: usize,
    valid_guesses: &[usize],
    possible_answers: &[usize],
    cache: &mut HashMap<u64, usize>,
) -> (depth: Result<usize, SearchExhausted>)
    requires
        src.wf(),
        src.words().len() <= MAX_WORDS,
        guess < src.words().len(),
        answer < src.words().len(),
        all_below(valid_guesses@, src.words().len()),
        all_below(possible_answers@, src.words().len()),
        remembers(old(cache)@, src.words(), answer as int, possible_answers@),
    ensures
        depth == search_depth(
            src.words(),
            guess,
            answer as int,
            valid_guesses@,
            possible_answers@,
        ),
        remembers(final(cache)@, src.words(), answer as int, possible_answers@),
        extends(final(cache)@, old(cache)@),
        final(cache)@.dom().contains(set_key(single(guess), src.words().len()) as u64),
{
    let root: GuessSet = (guess, NO_GUESS, NO_GUESS);
    let left = count_with_memo(src, root, answer, possible_answers, cache);
    if left <= LEN_TO_FIND {
        return Ok(1);
    }
    let mut queue: VecDeque<GuessSet> = VecDeque::new();
    queue.push_back(root);
    let ghost mut root_waits = true;
    let ghost mut small: int = 1;
    loop
        invariant
            src.wf(),
            src.words().len() <= MAX_WORDS,
            guess < src.words().len(),
            answer < src.words().len(),
            all_below(valid_guesses@, src.words().len()),
            all_below(possible_answers@, src.words().len()),
            remembers(cache@, src.words(), answer as int, possible_answers@),
            extends(cache@, old(cache)@),
            cache@.dom().contains(set_key(root, src.words().len()) as u64),
            root == single(guess),
            left_after(src.words(), root, answer as int, possible_answers@) > LEN_TO_FIND,
            0 <= small <= queue@.len(),
            forall|i: int|
                0 <= i < queue@.len() ==> reachable(
                    #[trigger] queue@[i],
                    guess,
                    valid_guesses@,
                    src.words().len(),
                ),
            forall|i: int| 0 <= i < small ==> set_len(#[trigger] queue@[i]) <= 2,
            forall|i: int| small <= i < queue@.len() ==> set_len(#[trigger] queue@[i]) == 3,
            root_waits ==> queue@ =~= seq![root],
            !root_waits ==> forall|i: int|
                0 <= i < queue@.len() ==> set_len(#[trigger] queue@[i]) >= 2,
            !root_waits ==> !narrowed_by_second(
                src.words(),
                guess,
                answer as int,
                valid_guesses@,
                possible_answers@,
            ),
            !root_waits && two_others(valid_guesses@, guess) ==> queue@.len() > 0,
        decreases
                (if root_waits {
                    1int
                } else {
                    0int
                }),
                small,
    {
        let ghost before = queue@;
        match queue.pop_front() {
            None => {
                return Err(SearchExhausted);
            },
            Some(seen) => {
                assert(seen == before[0]);
                assert(reachable(seen, guess, valid_guesses@, src.words().len()));
                assert forall|i: int| 0 <= i < queue@.len() implies queue@[i] == before[i
                    + 1] by {}
                let size = len_of(seen);
                if size >= MAX_DEPTH {
                    proof {
                        lemma_full_set(seen, guess, valid_guesses@, src.words().len());
                    }
                    return Ok(MAX_DEPTH);
                }
                let ghost popped = queue@;
                let found = expand(
                    src,
                    &mut queue,
                    seen,
                    guess,
                    answer,
                    valid_guesses,
                    possible_answers,
                    cache,
                );
                if found {
                    proof {
                        if size == 2 {
                            lemma_found(seen, guess, valid_guesses@, src.words().len());
                        }
                    }
                    return Ok(size + 1);
                }
                proof {
                    if root_waits {
                        assert(seen == root);
                        assert(popped.len() == 0);
                        root_waits = false;
                        small = queue@.len() as int;
                        assert forall|j: int|
                            0 <= j < valid_guesses@.len() && #[trigger] valid_guesses@[j]
                                != guess implies left_after(
                            src.words(),
                            pair(guess, valid_guesses@[j]),
                            answer as int,
                            possible_answers@,
                        ) > LEN_TO_FIND by {
                            assert(!holds(seen, valid_guesses@[j]));
                        }
                    } else {
                        assert(size == 2);
                        assert(small > 0);
                        small = small - 1;
                    }
                    if two_others(valid_guesses@, guess) {
                        let (a, b) = choose|a: int, b: int|
                            0 <= a < valid_guesses@.len() && 0 <= b < valid_guesses@.len()
                                && #[trigger] valid_guesses@[a] != guess
                                && #[trigger] valid_guesses@[b] != guess && valid_guesses@[a]
                                != valid_guesses@[b];
                        if !holds(seen, valid_guesses@[a]) {
                        } else {
                            assert(!holds(seen, valid_guesses@[b]));
                        }
                    }
                }
            },
        }
    }
}

/// The key of a set over a word list of at most `MAX_WORDS` words fits in 64
/// bits.
pub proof fn lemma_key_fits(set: GuessSet, size: nat)
    requires
        in_range(set, size),
        size <= MAX_WORDS,
    ensures
        set_key(set, size) <= u64::MAX,
{
    let s = size as int;
    let a = set.0 as int;
    let b = set.1 as int;
    let c = set.2 as int;
    assert(s * s <= 4294836225 && s * s * s <= 281462092005375) by (nonlinear_arith)
        requires
            0 <= s <= 65535,
    ;
    if set.0 != NO_GUESS {
        assert(a * s <= 65534 * 65535) by (nonlinear_arith)
            requires
                0 <= a <= 65534,
                0 <= s <= 65535,
        ;
    }
    if set.1 != NO_GUESS {
        assert(b * (s * s) <= 65534 * 4294836225) by (nonlinear_arith)
            requires
                0 <= b <= 65534,
                0 <= s * s <= 4294836225,
        ;
    }
    if set.2 != NO_GUESS {
        assert(c * (s * s * s) <= 65534 * 281462092005375) by (nonlinear_arith)
            requires
                0 <= c <= 65534,
                0 <= s * s * s <= 281462092005375,
        ;
    }
}

} // verus!
