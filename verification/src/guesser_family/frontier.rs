//! The frontier of a best-first search: a priority queue of guess sets, and
//! the search that it drives.

use crate::guesser_family::guess_set::{
    all_below, contains, count_survivors, holds, insert, left_after, len_of, lemma_found,
    lemma_full_set, listed, narrowed_by_second, pair, reachable, search_depth, set_len, single,
    two_others, with_guess, GuessSet, SearchExhausted, LEN_TO_FIND, MAX_DEPTH, NO_GUESS,
};
use crate::guesser_family::PatternSource;
use priority_queue::PriorityQueue;
use std::collections::hash_map::RandomState;
use vstd::prelude::*;

verus! {

/// How pressing a guess set is: fewer guesses first, and among sets of one
/// size the one that leaves fewer answers.
#[derive(Debug, Clone, Copy, PartialEq, Eq)]
pub struct P {
    pub depth: usize,
    pub answers_left: usize,
}

/// The rank that the queue orders by, greatest first: both counts turned
/// round, so that the smallest depth, and then the smallest number of
/// answers left, ranks highest.
pub open spec fn rank_of(p: P) -> (usize, usize) {
    ((usize::MAX - p.depth) as usize, (usize::MAX - p.answers_left) as usize)
}

/// The order of ranks: by the first number, then by the second.
pub open spec fn rank_le(a: (usize, usize), b: (usize, usize)) -> bool {
    a.0 < b.0 || (a.0 == b.0 && a.1 <= b.1)
}

/// `a` is served no later than `b`.
pub open spec fn no_later(a: P, b: P) -> bool {
    a.depth < b.depth || (a.depth == b.depth && a.answers_left <= b.answers_left)
}

impl P {
    pub fn new(depth: usize, answers_left: usize) -> (p: Self)
        ensures
            p.depth == depth,
            p.answers_left == answers_left,
    {
        Self { depth, answers_left }
    }

    /// The rank under which the queue holds a set of this priority.
    pub fn rank(&self) -> (r: (usize, usize))
        ensures
            r == rank_of(*self),
    {
        (usize::MAX - self.depth, usize::MAX - self.answers_left)
    }
}

/// The queue serves a priority first exactly when its rank is greatest.
pub proof fn lemma_rank_reverses(a: P, b: P)
    ensures
        no_later(a, b) == rank_le(rank_of(b), rank_of(a)),
{
}

/// The priority queue of the `priority-queue` crate. Nothing is known of
/// what is inside one but what `queue_contents` names.
#[verifier::external_type_specification]
#[verifier::external_body]
#[verifier::reject_recursive_types(I)]
#[verifier::reject_recursive_types(Q)]
#[verifier::reject_recursive_types(H)]
pub struct ExPriorityQueue<I, Q, H>(PriorityQueue<I, Q, H>);

/// The queue of guess sets that a search has yet to look at.
pub type Frontier = PriorityQueue<(usize, usize, usize), (usize, usize), RandomState>;

/// What a queue holds: each of its items with its rank.
pub uninterp spec fn queue_contents(queue: Frontier) -> Map<(usize, usize, usize), (usize, usize)>;

/// `PriorityQueue::new`: a queue that holds nothing.
#[verifier::external_body]
fn queue_new() -> (made: Frontier)
    ensures
        queue_contents(made) =~= Map::empty(),
{
    PriorityQueue::new()
}

/// `PriorityQueue::push`: the item is in the queue afterwards under the
/// given rank, whether or not it was there before, and nothing else changes.
/// The call returns the rank that the item had, if it had one.
#[verifier::external_body]
fn queue_push(queue: &mut Frontier, item: GuessSet, rank: (usize, usize)) -> (had: Option<
    (usize, usize),
>)
    ensures
        queue_contents(*final(queue)) == queue_contents(*old(queue)).insert(item, rank),
        had == if queue_contents(*old(queue)).dom().contains(item) {
            Some(queue_contents(*old(queue))[item])
        } else {
            None
        },
{
    queue.push(item, rank)
}

/// `PriorityQueue::pop`: on an empty queue it returns nothing and changes
/// nothing. Otherwise it removes and returns an item whose rank no item of
/// the queue exceeds, in the order of pairs: by the first number, then by
/// the second.
#[verifier::external_body]
fn queue_pop(queue: &mut Frontier) -> (top: Option<(GuessSet, (usize, usize))>)
    ensures
        match top {
            None => {
                &&& queue_contents(*old(queue)).dom() =~= Set::<(usize, usize, usize)>::empty()
                &&& queue_contents(*final(queue)) == queue_contents(*old(queue))
            },
            Some((item, rank)) => {
                &&& queue_contents(*old(queue)).contains_pair(item, rank)
                &&& queue_contents(*final(queue)) == queue_contents(*old(queue)).remove(item)
                &&& forall|other: (usize, usize, usize)|
                    queue_contents(*old(queue)).dom().contains(other) ==> rank_le(
                        #[trigger] queue_contents(*old(queue))[other],
                        rank,
                    )
            },
        },
{
    queue.pop()
}

/// `PriorityQueue::get_priority`: the rank of the item, if the queue holds
/// it.
#[verifier::external_body]
fn queue_rank(queue: &Frontier, item: &GuessSet) -> (rank: Option<(usize, usize)>)
    ensures
        rank == if queue_contents(*queue).dom().contains(*item) {
            Some(queue_contents(*queue)[*item])
        } else {
            None
        },
{
    queue.get_priority(item).copied()
}

/// What holds of every set that waits in the queue of a search from `first`:
/// the search can reach it, and it leaves more than `LEN_TO_FIND` answers.
pub open spec fn waiting(
    set: GuessSet,
    words: Seq<Seq<char>>,
    first: usize,
    answer: int,
    valid: Seq<usize>,
    possible: Seq<usize>,
) -> bool {
    &&& reachable(set, first, valid, words.len())
    &&& left_after(words, set, answer, possible) > LEN_TO_FIND
}

/// Looks at every set that adds one valid guess to `seen`. A set that the
/// queue holds already is passed over. The first new set that leaves at most
/// `LEN_TO_FIND` answers ends the search; every other new set joins the
/// queue.
fn expand<S: PatternSource>(
    src: &S,
    queue: &mut Frontier,
    seen: GuessSet,
    first: usize,
    answer: usize,
    valid: &[usize],
    possible: &[usize],
) -> (found: bool)
    requires
        src.wf(),
        src.words().len() <= usize::MAX,
        first < src.words().len(),
        answer < src.words().len(),
        all_below(valid@, src.words().len()),
        all_below(possible@, src.words().len()),
        reachable(seen, first, valid@, src.words().len()),
        set_len(seen) < MAX_DEPTH,
        queue_contents(*old(queue)).dom().finite(),
        forall|set: GuessSet| #[trigger]
            queue_contents(*old(queue)).dom().contains(set) ==> waiting(
                set,
                src.words(),
                first,
                answer as int,
                valid@,
                possible@,
            ),
    ensures
        found ==> exists|j: int|
            0 <= j < valid@.len() && !holds(seen, #[trigger] valid@[j]) && left_after(
                src.words(),
                with_guess(seen, valid@[j]),
                answer as int,
                possible@,
            ) <= LEN_TO_FIND,
        !found ==> forall|j: int|
            0 <= j < valid@.len() && !holds(seen, #[trigger] valid@[j]) ==> queue_contents(
                *final(queue),
            ).dom().contains(with_guess(seen, valid@[j])),
        queue_contents(*final(queue)).dom().finite(),
        forall|set: GuessSet| #[trigger]
            queue_contents(*old(queue)).dom().contains(set) ==> queue_contents(
                *final(queue),
            ).dom().contains(set),
        forall|set: GuessSet| #[trigger]
            queue_contents(*final(queue)).dom().contains(set) ==> waiting(
                set,
                src.words(),
                first,
                answer as int,
                valid@,
                possible@,
            ) && (queue_contents(*old(queue)).dom().contains(set) || set_len(set) == set_len(seen)
                + 1),
{
    let mut j: usize = 0;
    while j < valid.len()
        invariant
            j <= valid@.len(),
            src.wf(),
            src.words().len() <= usize::MAX,
            first < src.words().len(),
            answer < src.words().len(),
            all_below(valid@, src.words().len()),
            all_below(possible@, src.words().len()),
            reachable(seen, first, valid@, src.words().len()),
            set_len(seen) < MAX_DEPTH,
            queue_contents(*queue).dom().finite(),
            forall|k: int|
                0 <= k < j && !holds(seen, #[trigger] valid@[k]) ==> queue_contents(
                    *queue,
                ).dom().contains(with_guess(seen, valid@[k])),
            forall|set: GuessSet| #[trigger]
                queue_contents(*old(queue)).dom().contains(set) ==> queue_contents(
                    *queue,
                ).dom().contains(set),
            forall|set: GuessSet| #[trigger]
                queue_contents(*queue).dom().contains(set) ==> waiting(
                    set,
                    src.words(),
                    first,
                    answer as int,
                    valid@,
                    possible@,
                ) && (queue_contents(*old(queue)).dom().contains(set) || set_len(set) == set_len(
                    seen,
                ) + 1),
        decreases valid@.len() - j,
    {
        let guess = valid[j];
        if !contains(seen, guess) {
            let next = insert(seen, guess);
            if queue_rank(queue, &next).is_none() {
                let depth = len_of(next);
                let left = count_survivors(src, next, answer, possible);
                if left <= LEN_TO_FIND {
                    return true;
                }
                proof {
                    assert(listed(valid@, guess));
                    assert(reachable(next, first, valid@, src.words().len()));
                }
                queue_push(queue, next, P::new(depth, left).rank());
            }
        }
        j += 1;
    }
    false
}

/// The depth of `first` against `answer`, by a best-first search over sets
/// of guesses. The search starts from the set of `first` alone and always
/// goes on from the most pressing set that waits. It ends with the size of
/// the first set found to leave at most `LEN_TO_FIND` answers, or with
/// `MAX_DEPTH` once a set of that size comes up. It fails where the queue
/// runs dry before either happens.
pub fn best_first_depth<S: PatternSource>(
    src: &S,
    first: usize,
    answer: usize,
    valid: &[usize],
    possible: &[usize],
) -> (depth: Result<usize, SearchExhausted>)
    requires
        src.wf(),
        first < src.words().len(),
        answer < src.words().len(),
        all_below(valid@, src.words().len()),
        all_below(possible@, src.words().len()),
    ensures
        depth == search_depth(src.words(), first, answer as int, valid@, possible@),
{
    let n = src.size();
    let root: GuessSet = (first, NO_GUESS, NO_GUESS);
    let left = count_survivors(src, root, answer, possible);
    if left <= LEN_TO_FIND {
        return Ok(1);
    }
    let mut queue = queue_new();
    queue_push(&mut queue, root, P::new(1, left).rank());
    let ghost mut pairs: Set<GuessSet> = Set::empty();
    loop
        invariant
            src.wf(),
            src.words().len() <= usize::MAX,
            first < src.words().len(),
            answer < src.words().len(),
            all_below(valid@, src.words().len()),
            all_below(possible@, src.words().len()),
            root == single(first),
            left_after(src.words(), root, answer as int, possible@) > LEN_TO_FIND,
            queue_contents(queue).dom().finite(),
            pairs.finite(),
            forall|set: GuessSet| #[trigger]
                queue_contents(queue).dom().contains(set) ==> waiting(
                    set,
                    src.words(),
                    first,
                    answer as int,
                    valid@,
                    possible@,
                ),
            forall|set: GuessSet| #[trigger]
                queue_contents(queue).dom().contains(set) && set_len(set) == 2 ==> pairs.contains(
                    set,
                ),
            queue_contents(queue).dom().contains(root) ==> forall|set: GuessSet| #[trigger]
                queue_contents(queue).dom().contains(set) ==> set == root,
            !queue_contents(queue).dom().contains(root) ==> !narrowed_by_second(
                src.words(),
                first,
                answer as int,
                valid@,
                possible@,
            ),
            !queue_contents(queue).dom().contains(root) && two_others(valid@, first)
                ==> exists|set: GuessSet| #[trigger] queue_contents(queue).dom().contains(set),
        decreases
                (if queue_contents(queue).dom().contains(root) {
                    1int
                } else {
                    0int
                }),
                pairs.len(),
    {
        let ghost before = queue_contents(queue);
        match queue_pop(&mut queue) {
            None => {
                return Err(SearchExhausted);
            },
            Some((seen, _rank)) => {
                assert(before.dom().contains(seen));
                assert(waiting(seen, src.words(), first, answer as int, valid@, possible@));
                let size = len_of(seen);
                if size >= MAX_DEPTH {
                    proof {
                        lemma_full_set(seen, first, valid@, src.words().len());
                    }
                    return Ok(MAX_DEPTH);
                }
                let ghost popped = queue_contents(queue);
                let found = expand(src, &mut queue, seen, first, answer, valid, possible);
                if found {
                    proof {
                        if size == 2 {
                            lemma_found(seen, first, valid@, src.words().len());
                        }
                    }
                    return Ok(size + 1);
                }
                proof {
                    if seen == root {
                        pairs = queue_contents(queue).dom();
                        assert forall|j: int|
                            0 <= j < valid@.len() && #[trigger] valid@[j] != first implies left_after(
                            src.words(),
                            pair(first, valid@[j]),
                            answer as int,
                            possible@,
                        ) > LEN_TO_FIND by {
                            assert(!holds(seen, valid@[j]));
                            assert(queue_contents(queue).dom().contains(
                                with_guess(seen, valid@[j]),
                            ));
                        }
                    } else {
                        assert(pairs.contains(seen));
                        pairs = pairs.remove(seen);
                    }
                    if two_others(valid@, first) {
                        let (a, b) = choose|a: int, b: int|
                            0 <= a < valid@.len() && 0 <= b < valid@.len() && #[trigger] valid@[a]
                                != first && #[trigger] valid@[b] != first && valid@[a] != valid@[b];
                        if !holds(seen, valid@[a]) {
                            assert(queue_contents(queue).dom().contains(
                                with_guess(seen, valid@[a]),
                            ));
                        } else {
                            assert(!holds(seen, valid@[b]));
                            assert(queue_contents(queue).dom().contains(
                                with_guess(seen, valid@[b]),
                            ));
                        }
                    }
                }
            },
        }
    }
}

} // verus!
