//! From depths to a ranking: the sum of a guess's depths over the possible
//! answers is its score, and the guesses are listed by ascending score.
//!
//! A score stands for the mean depth of the guess. All guesses of one
//! ranking are scored over the same possible answers, so the sums order them
//! as the means would.

use crate::guesser_family::frontier::best_first_depth;
use crate::guesser_family::guess_set::{
    all_below, keeps, left_after, narrowed_by_second, pair, search_depth, single, survivors,
    two_others, GuessSet, SearchExhausted, LEN_TO_FIND, MAX_DEPTH,
};
use crate::guesser_family::{letters_of, PatternSource};
use crate::words_family::WordTrait;
use vstd::prelude::*;

verus! {

/// Whether the word is one of the list.
pub open spec fn known(words: Seq<Seq<char>>, word: Seq<char>) -> bool {
    exists|j: int| 0 <= j < words.len() && #[trigger] words[j] == word
}

/// Whether `j` is the first place at which the list holds the word.
pub open spec fn first_at(words: Seq<Seq<char>>, word: Seq<char>, j: int) -> bool {
    &&& 0 <= j < words.len()
    &&& words[j] == word
    &&& forall|i: int| 0 <= i < j ==> #[trigger] words[i] != word
}

/// The first place at which the list holds the word.
pub open spec fn position(words: Seq<Seq<char>>, word: Seq<char>) -> int {
    choose|j: int| first_at(words, word, j)
}

/// Every word of `some` is one of `words`.
pub open spec fn all_known<W: WordTrait>(words: Seq<W>, some: Seq<W>) -> bool {
    forall|k: int| 0 <= k < some.len() ==> known(letters_of(words), #[trigger] some[k].letters())
}

/// The places of the words of `some` in `words`.
pub open spec fn positions<W: WordTrait>(words: Seq<W>, some: Seq<W>) -> Seq<
    usize,
> {
    Seq::new(some.len(), |k: int| position(letters_of(words), some[k].letters()) as usize)
}

/// Finds the first place of a word in a list.
pub fn index_of<W: WordTrait>(words: &[W], word: &W) -> (place: Option<usize>)
    ensures
        match place {
            Some(j) => first_at(letters_of(words@), word.letters(), j as int) && j == position(
                letters_of(words@),
                word.letters(),
            ),
            None => !known(letters_of(words@), word.letters()),
        },
{
    let mut j: usize = 0;
    while j < words.len()
        invariant
            j <= words@.len(),
            forall|i: int| 0 <= i < j ==> #[trigger] letters_of(words@)[i] != word.letters(),
        decreases words@.len() - j,
    {
        if words[j].same(word) {
            proof {
                assert(first_at(letters_of(words@), word.letters(), j as int));
                let c = position(letters_of(words@), word.letters());
                assert(first_at(letters_of(words@), word.letters(), c));
                if c < j {
                    assert(letters_of(words@)[c] != word.letters());
                }
                if j < c {
                    assert(letters_of(words@)[j as int] != word.letters());
                }
            }
            return Some(j);
        }
        j += 1;
    }
    None
}

/// Finds the place of each word of `some` in `words`, which holds them all.
pub fn indices_of<W: WordTrait>(words: &[W], some: &[W]) -> (places: Vec<usize>)
    requires
        all_known(words@, some@),
    ensures
        places@ == positions(words@, some@),
        all_below(places@, words@.len()),
{
    let mut places: Vec<usize> = Vec::new();
    let mut k: usize = 0;
    while k < some.len()
        invariant
            k <= some@.len(),
            all_known(words@, some@),
            places@.len() == k,
            forall|i: int| 0 <= i < k ==> #[trigger] places@[i] == positions(words@, some@)[i],
            forall|i: int| 0 <= i < k ==> #[trigger] places@[i] < words@.len(),
        decreases some@.len() - k,
    {
        assert(known(letters_of(words@), some@[k as int].letters()));
        match index_of(words, &some[k]) {
            Some(j) => {
                places.push(j);
            },
            None => {
                assert(false);
            },
        }
        k += 1;
    }
    assert(places@ =~= positions(words@, some@));
    places
}

/// The sum of the depths of `first` against the first `n` possible answers.
/// It fails where the search for one of them fails.
pub open spec fn depth_sum(
    words: Seq<Seq<char>>,
    first: usize,
    valid: Seq<usize>,
    possible: Seq<usize>,
    n: int,
) -> Result<nat, SearchExhausted>
    decreases n,
{
    if n <= 0 {
        Ok(0)
    } else {
        match (
            depth_sum(words, first, valid, possible, n - 1),
            search_depth(words, first, possible[n - 1] as int, valid, possible),
        ) {
            (Ok(sum), Ok(depth)) => Ok((sum + depth) as nat),
            _ => Err(SearchExhausted),
        }
    }
}

/// The score of `first`: the sum of its depths against all possible answers.
pub open spec fn score(
    words: Seq<Seq<char>>,
    first: usize,
    valid: Seq<usize>,
    possible: Seq<usize>,
) -> Result<nat, SearchExhausted> {
    depth_sum(words, first, valid, possible, possible.len() as int)
}

/// A sum that has failed stays failed, and a sum of `n` depths lies between
/// `n` and `MAX_DEPTH` times `n`.
pub proof fn lemma_depth_sum(
    words: Seq<Seq<char>>,
    first: usize,
    valid: Seq<usize>,
    possible: Seq<usize>,
    m: int,
    n: int,
)
    requires
        0 <= m <= n,
    ensures
        depth_sum(words, first, valid, possible, m) is Err ==> depth_sum(
            words,
            first,
            valid,
            possible,
            n,
        ) is Err,
        depth_sum(words, first, valid, possible, n) is Ok ==> n <= depth_sum(
            words,
            first,
            valid,
            possible,
            n,
        )->Ok_0 <= MAX_DEPTH * n,
    decreases n,
{
    if n > 0 {
        if m < n {
            lemma_depth_sum(words, first, valid, possible, m, n - 1);
        } else {
            lemma_depth_sum(words, first, valid, possible, n - 1, n - 1);
        }
    }
}

/// The score of one guess: the sum of its depths, each by best-first search.
pub fn rank_guess<S: PatternSource>(
    src: &S,
    guess: usize,
    valid: &[usize],
    possible: &[usize],
) -> (total: Result<usize, SearchExhausted>)
    requires
        src.wf(),
        guess < src.words().len(),
        all_below(valid@, src.words().len()),
        all_below(possible@, src.words().len()),
        possible@.len() * MAX_DEPTH <= usize::MAX,
    ensures
        match total {
            Ok(sum) => score(src.words(), guess, valid@, possible@) == Ok::<
                nat,
                SearchExhausted,
            >(sum as nat),
            Err(_) => score(src.words(), guess, valid@, possible@) is Err,
        },
{
    let mut sum: usize = 0;
    let mut k: usize = 0;
    while k < possible.len()
        invariant
            k <= possible@.len(),
            src.wf(),
            guess < src.words().len(),
            all_below(valid@, src.words().len()),
            all_below(possible@, src.words().len()),
            possible@.len() * MAX_DEPTH <= usize::MAX,
            depth_sum(src.words(), guess, valid@, possible@, k as int) == Ok::<
                nat,
                SearchExhausted,
            >(sum as nat),
        decreases possible@.len() - k,
    {
        proof {
            lemma_depth_sum(src.words(), guess, valid@, possible@, k as int, k as int);
            lemma_depth_sum(
                src.words(),
                guess,
                valid@,
                possible@,
                k as int + 1,
                possible@.len() as int,
            );
            lemma_depth_sum(src.words(), guess, valid@, possible@, k as int + 1, k as int + 1);
        }
        match best_first_depth(src, guess, possible[k], valid, possible) {
            Ok(depth) => {
                sum += depth;
            },
            Err(e) => {
                return Err(e);
            },
        }
        k += 1;
    }
    Ok(sum)
}

/// Every guess has a score: no search fails.
pub open spec fn all_scored(words: Seq<Seq<char>>, valid: Seq<usize>, possible: Seq<usize>) -> bool {
    forall|k: int| 0 <= k < valid.len() ==> (#[trigger] score(words, valid[k], valid, possible)) is Ok
}

/// The scores of the valid guesses, in their order.
pub open spec fn scores(words: Seq<Seq<char>>, valid: Seq<usize>, possible: Seq<usize>) -> Seq<
    usize,
> {
    Seq::new(valid.len(), |k: int| score(words, valid[k], valid, possible)->Ok_0 as usize)
}

/// The scores of all valid guesses, or the failure of the first search that
/// fails.
pub fn rank_all<S: PatternSource>(src: &S, valid: &[usize], possible: &[usize]) -> (totals: Result<
    Vec<usize>,
    SearchExhausted,
>)
    requires
        src.wf(),
        all_below(valid@, src.words().len()),
        all_below(possible@, src.words().len()),
        possible@.len() * MAX_DEPTH <= usize::MAX,
    ensures
        totals is Ok == all_scored(src.words(), valid@, possible@),
        totals is Ok ==> totals->Ok_0@ == scores(src.words(), valid@, possible@),
{
    let mut totals: Vec<usize> = Vec::new();
    let mut k: usize = 0;
    while k < valid.len()
        invariant
            k <= valid@.len(),
            src.wf(),
            all_below(valid@, src.words().len()),
            all_below(possible@, src.words().len()),
            possible@.len() * MAX_DEPTH <= usize::MAX,
            totals@.len() == k,
            forall|i: int|
                0 <= i < k ==> (#[trigger] score(src.words(), valid@[i], valid@, possible@)) is Ok
                    && totals@[i] == scores(src.words(), valid@, possible@)[i],
        decreases valid@.len() - k,
    {
        match rank_guess(src, valid[k], valid, possible) {
            Ok(sum) => {
                totals.push(sum);
            },
            Err(e) => {
                assert(!(score(src.words(), valid@[k as int], valid@, possible@) is Ok));
                return Err(e);
            },
        }
        k += 1;
    }
    assert(totals@ =~= scores(src.words(), valid@, possible@));
    Ok(totals)
}

/// Each item with its score.
pub open spec fn scored<T>(items: Seq<T>, totals: Seq<usize>) -> Seq<(T, usize)> {
    Seq::new(items.len(), |k: int| (items[k], totals[k]))
}

/// The scores of a ranking never fall from one entry to the next.
pub open spec fn ascending<T>(ranking: Seq<(T, usize)>) -> bool {
    forall|i: int, j: int| 0 <= i <= j < ranking.len() ==> ranking[i].1 <= ranking[j].1
}

/// Lists the items by ascending score.
pub fn ranked<T: Copy>(items: &[T], totals: &Vec<usize>) -> (ranking: Vec<(T, usize)>)
    requires
        items@.len() == totals@.len(),
    ensures
        ascending(ranking@),
        ranking@.to_multiset() == scored(items@, totals@).to_multiset(),
{
    let mut ranking: Vec<(T, usize)> = Vec::new();
    let mut k: usize = 0;
    proof {
        assert(scored(items@, totals@).take(0) =~= Seq::<(T, usize)>::empty());
    }
    while k < items.len()
        invariant
            k <= items@.len(),
            items@.len() == totals@.len(),
            ranking@.len() == k,
            ascending(ranking@),
            ranking@.to_multiset() == scored(items@, totals@).take(k as int).to_multiset(),
        decreases items@.len() - k,
    {
        let total = totals[k];
        let mut at: usize = 0;
        while at < ranking.len() && ranking[at].1 <= total
            invariant
                at <= ranking@.len(),
                forall|i: int| 0 <= i < at ==> ranking@[i].1 <= total,
            decreases ranking@.len() - at,
        {
            at += 1;
        }
        let ghost before = ranking@;
        ranking.insert(at, (items[k], total));
        proof {
            let entry = (items@[k as int], total);
            vstd::seq_lib::to_multiset_insert(before, at as int, entry);
            vstd::seq_lib::to_multiset_build(scored(items@, totals@).take(k as int), entry);
            assert(scored(items@, totals@).take(k as int).push(entry) =~= scored(
                items@,
                totals@,
            ).take(k as int + 1));
            assert forall|i: int, j: int| 0 <= i <= j < ranking@.len() implies ranking@[i].1
                <= ranking@[j].1 by {
                if i < at && j > at {
                    assert(ranking@[i] == before[i]);
                    assert(ranking@[j] == before[j - 1]);
                } else if i < at && j < at {
                    assert(ranking@[i] == before[i]);
                    assert(ranking@[j] == before[j]);
                } else if i > at {
                    assert(ranking@[i] == before[i - 1]);
                    assert(ranking@[j] == before[j - 1]);
                } else if i == at && j > at {
                    assert(ranking@[j] == before[j - 1]);
                    assert(before[at as int].1 <= before[j - 1].1);
                }
            }
        }
        k += 1;
    }
    proof {
        assert(scored(items@, totals@).take(items@.len() as int) =~= scored(items@, totals@));
    }
    ranking
}

/// What a ranking of `valid_guesses` over `possible_answers` is, for
/// guessers that search: each guess and each answer stands for its first
/// place in the word list `words`. Where the search succeeds for every guess
/// and answer, the ranking lists every valid guess once for each time it was
/// given, with its score, by ascending score. Where one search fails, the
/// ranking fails.
pub open spec fn ranking_of<W: WordTrait>(
    words: Seq<W>,
    valid_guesses: Seq<W>,
    possible_answers: Seq<W>,
    ranking: Result<Vec<(W, usize)>, SearchExhausted>,
) -> bool {
    let valid = positions(words, valid_guesses);
    let possible = positions(words, possible_answers);
    match ranking {
        Ok(list) => {
            &&& all_scored(letters_of(words), valid, possible)
            &&& ascending(list@)
            &&& list@.to_multiset() == scored(
                valid_guesses,
                scores(letters_of(words), valid, possible),
            ).to_multiset()
        },
        Err(_) => !all_scored(letters_of(words), valid, possible),
    }
}

/// Ranks the valid guesses by best-first search over the given source of
/// patterns, whose word list is `words`.
pub fn rank_by_search<S: PatternSource, W: WordTrait>(
    src: &S,
    words: &[W],
    valid_guesses: &[W],
    possible_answers: &[W],
) -> (ranking: Result<Vec<(W, usize)>, SearchExhausted>)
    requires
        src.wf(),
        src.words() == letters_of(words@),
        all_known(words@, valid_guesses@),
        all_known(words@, possible_answers@),
        possible_answers@.len() * MAX_DEPTH <= usize::MAX,
    ensures
        ranking_of(words@, valid_guesses@, possible_answers@, ranking),
{
    let valid = indices_of(words, valid_guesses);
    let possible = indices_of(words, possible_answers);
    match rank_all(src, valid.as_slice(), possible.as_slice()) {
        Ok(totals) => Ok(ranked(valid_guesses, &totals)),
        Err(e) => Err(e),
    }
}

/// Every word of a list is known in that list.
pub proof fn lemma_known_in_itself<W: WordTrait>(words: Seq<W>)
    ensures
        all_known(words, words),
{
    assert forall|k: int| 0 <= k < words.len() implies known(
        letters_of(words),
        #[trigger] words[k].letters(),
    ) by {
        assert(letters_of(words)[k] == words[k].letters());
    }
}

/// Two rankings of the same guesses over the same answers and word list
/// succeed or fail together, and hold the same guesses with the same scores:
/// they can differ only in the order of guesses of one score.
pub proof fn lemma_rankings_agree<W: WordTrait>(
    words: Seq<W>,
    valid_guesses: Seq<W>,
    possible_answers: Seq<W>,
    one: Result<Vec<(W, usize)>, SearchExhausted>,
    other: Result<Vec<(W, usize)>, SearchExhausted>,
)
    requires
        ranking_of(words, valid_guesses, possible_answers, one),
        ranking_of(words, valid_guesses, possible_answers, other),
    ensures
        one is Ok == other is Ok,
        one is Ok ==> one->Ok_0@.to_multiset() == other->Ok_0@.to_multiset(),
        one is Ok ==> one->Ok_0@.len() == other->Ok_0@.len(),
{
    if one is Ok {
        one->Ok_0@.to_multiset_ensures();
        other->Ok_0@.to_multiset_ensures();
    }
}

/// The score of a guess lies between the number of possible answers and
/// `MAX_DEPTH` times that number: its depth against each answer lies between
/// one and `MAX_DEPTH`.
pub proof fn lemma_score_bounds(
    words: Seq<Seq<char>>,
    first: usize,
    valid: Seq<usize>,
    possible: Seq<usize>,
)
    ensures
        score(words, first, valid, possible) is Ok ==> possible.len() <= score(
            words,
            first,
            valid,
            possible,
        )->Ok_0 <= MAX_DEPTH * possible.len(),
        forall|answer: int|
            (#[trigger] search_depth(words, first, answer, valid, possible)) is Ok ==> 1
                <= search_depth(words, first, answer, valid, possible)->Ok_0 <= MAX_DEPTH,
{
    lemma_depth_sum(words, first, valid, possible, 0, possible.len() as int);
}

/// Two lists of places, each in a word list of its own, name the same
/// words in the same order.
pub open spec fn mirrors(
    words: Seq<Seq<char>>,
    places: Seq<usize>,
    other_words: Seq<Seq<char>>,
    other_places: Seq<usize>,
) -> bool {
    &&& places.len() == other_places.len()
    &&& forall|k: int|
        0 <= k < places.len() ==> (#[trigger] places[k]) < words.len() && other_places[k]
            < other_words.len() && words[places[k] as int] == other_words[other_places[k] as int]
}

/// Two lists of places repeat themselves at the same points.
pub open spec fn same_repeats(places: Seq<usize>, other_places: Seq<usize>) -> bool {
    forall|i: int, j: int|
        0 <= i < places.len() && 0 <= j < places.len() ==> (#[trigger] places[i] == #[trigger] places[j])
            == (other_places[i] == other_places[j])
}

proof fn lemma_survivors_mirror(
    words: Seq<Seq<char>>,
    set: GuessSet,
    answer: int,
    possible: Seq<usize>,
    other_words: Seq<Seq<char>>,
    other_set: GuessSet,
    other_answer: int,
    other_possible: Seq<usize>,
    n: int,
)
    requires
        0 <= n <= possible.len(),
        possible.len() == other_possible.len(),
        forall|m: int|
            0 <= m < possible.len() ==> keeps(words, set, answer, #[trigger] possible[m] as int)
                == keeps(other_words, other_set, other_answer, other_possible[m] as int),
    ensures
        survivors(words, set, answer, possible, n) == survivors(
            other_words,
            other_set,
            other_answer,
            other_possible,
            n,
        ),
    decreases n,
{
    if n > 0 {
        lemma_survivors_mirror(
            words,
            set,
            answer,
            possible,
            other_words,
            other_set,
            other_answer,
            other_possible,
            n - 1,
        );
        assert(keeps(words, set, answer, possible[n - 1] as int) == keeps(
            other_words,
            other_set,
            other_answer,
            other_possible[n - 1] as int,
        ));
    }
}

/// The depth of a guess against an answer is a matter of the words alone:
/// it is the same in any word list, whatever the places of the words in it.
pub proof fn lemma_depth_mirror(
    words: Seq<Seq<char>>,
    valid: Seq<usize>,
    possible: Seq<usize>,
    other_words: Seq<Seq<char>>,
    other_valid: Seq<usize>,
    other_possible: Seq<usize>,
    g: int,
    k: int,
)
    requires
        words.len() <= usize::MAX,
        other_words.len() <= usize::MAX,
        mirrors(words, valid, other_words, other_valid),
        mirrors(words, possible, other_words, other_possible),
        same_repeats(valid, other_valid),
        0 <= g < valid.len(),
        0 <= k < possible.len(),
    ensures
        search_depth(words, valid[g], possible[k] as int, valid, possible) == search_depth(
            other_words,
            other_valid[g],
            other_possible[k] as int,
            other_valid,
            other_possible,
        ),
{
    let first = valid[g];
    let other_first = other_valid[g];
    let answer = possible[k] as int;
    let other_answer = other_possible[k] as int;
    let n = possible.len() as int;
    assert(first < words.len() && other_first < other_words.len());
    assert(possible[k] < words.len() && other_possible[k] < other_words.len());
    assert forall|m: int| 0 <= m < possible.len() implies keeps(
        words,
        single(first),
        answer,
        #[trigger] possible[m] as int,
    ) == keeps(other_words, single(other_first), other_answer, other_possible[m] as int) by {
        assert(possible[m] < words.len());
    }
    lemma_survivors_mirror(
        words,
        single(first),
        answer,
        possible,
        other_words,
        single(other_first),
        other_answer,
        other_possible,
        n,
    );
    assert forall|j: int| 0 <= j < valid.len() implies (#[trigger] valid[j] != first) == (
    other_valid[j] != other_first) && left_after(words, pair(first, valid[j]), answer, possible)
        == left_after(
        other_words,
        pair(other_first, other_valid[j]),
        other_answer,
        other_possible,
    ) by {
        assert((valid[j] == valid[g]) == (other_valid[j] == other_valid[g]));
        assert(valid[j] < words.len() && other_valid[j] < other_words.len());
        assert forall|m: int| 0 <= m < possible.len() implies keeps(
            words,
            pair(first, valid[j]),
            answer,
            #[trigger] possible[m] as int,
        ) == keeps(
            other_words,
            pair(other_first, other_valid[j]),
            other_answer,
            other_possible[m] as int,
        ) by {
            assert(possible[m] < words.len());
        }
        lemma_survivors_mirror(
            words,
            pair(first, valid[j]),
            answer,
            possible,
            other_words,
            pair(other_first, other_valid[j]),
            other_answer,
            other_possible,
            n,
        );
    }
    if narrowed_by_second(words, first, answer, valid, possible) {
        let j = choose|j: int|
            0 <= j < valid.len() && #[trigger] valid[j] != first && left_after(
                words,
                pair(first, valid[j]),
                answer,
                possible,
            ) <= LEN_TO_FIND;
        assert(other_valid[j] != other_first);
    }
    if narrowed_by_second(other_words, other_first, other_answer, other_valid, other_possible) {
        let j = choose|j: int|
            0 <= j < other_valid.len() && #[trigger] other_valid[j] != other_first && left_after(
                other_words,
                pair(other_first, other_valid[j]),
                other_answer,
                other_possible,
            ) <= LEN_TO_FIND;
        assert(valid[j] != first);
    }
    if two_others(valid, first) {
        let (i, j) = choose|i: int, j: int|
            0 <= i < valid.len() && 0 <= j < valid.len() && #[trigger] valid[i] != first
                && #[trigger] valid[j] != first && valid[i] != valid[j];
        assert((valid[i] == valid[g]) == (other_valid[i] == other_valid[g]));
        assert((valid[j] == valid[g]) == (other_valid[j] == other_valid[g]));
        assert((valid[i] == valid[j]) == (other_valid[i] == other_valid[j]));
        assert(other_valid[i] != other_first && other_valid[j] != other_first && other_valid[i]
            != other_valid[j]);
    }
    if two_others(other_valid, other_first) {
        let (i, j) = choose|i: int, j: int|
            0 <= i < other_valid.len() && 0 <= j < other_valid.len()
                && #[trigger] other_valid[i] != other_first && #[trigger] other_valid[j]
                != other_first && other_valid[i] != other_valid[j];
        assert((valid[i] == valid[g]) == (other_valid[i] == other_valid[g]));
        assert((valid[j] == valid[g]) == (other_valid[j] == other_valid[g]));
        assert((valid[i] == valid[j]) == (other_valid[i] == other_valid[j]));
        assert(valid[i] != first && valid[j] != first && valid[i] != valid[j]);
    }
}

/// The score of a guess is the same in any word list.
pub proof fn lemma_score_mirror(
    words: Seq<Seq<char>>,
    valid: Seq<usize>,
    possible: Seq<usize>,
    other_words: Seq<Seq<char>>,
    other_valid: Seq<usize>,
    other_possible: Seq<usize>,
    g: int,
    n: int,
)
    requires
        words.len() <= usize::MAX,
        other_words.len() <= usize::MAX,
        mirrors(words, valid, other_words, other_valid),
        mirrors(words, possible, other_words, other_possible),
        same_repeats(valid, other_valid),
        0 <= g < valid.len(),
        0 <= n <= possible.len(),
    ensures
        depth_sum(words, valid[g], valid, possible, n) == depth_sum(
            other_words,
            other_valid[g],
            other_valid,
            other_possible,
            n,
        ),
    decreases n,
{
    if n > 0 {
        lemma_score_mirror(
            words,
            valid,
            possible,
            other_words,
            other_valid,
            other_possible,
            g,
            n - 1,
        );
        lemma_depth_mirror(
            words,
            valid,
            possible,
            other_words,
            other_valid,
            other_possible,
            g,
            n - 1,
        );
    }
}

/// The first places of some words in a list that holds them name those
/// words, and are the same for the same word only.
pub proof fn lemma_positions<W: WordTrait>(words: Seq<W>, some: Seq<W>)
    requires
        all_known(words, some),
    ensures
        positions(words, some).len() == some.len(),
        forall|k: int|
            0 <= k < some.len() ==> 0 <= position(letters_of(words), #[trigger] some[k].letters())
                < words.len() && letters_of(words)[position(letters_of(words), some[k].letters())]
                == some[k].letters(),
{
    assert forall|k: int| 0 <= k < some.len() implies 0 <= position(
        letters_of(words),
        #[trigger] some[k].letters(),
    ) < words.len() && letters_of(words)[position(letters_of(words), some[k].letters())] == some[k].letters() by {
        let all = letters_of(words);
        let w = some[k].letters();
        assert(known(all, w));
        lemma_first_place(all, w);
    }
}

/// A word that a list holds has a first place there.
pub proof fn lemma_first_place(words: Seq<Seq<char>>, word: Seq<char>)
    requires
        known(words, word),
    ensures
        first_at(words, word, position(words, word)),
{
    let j = choose|j: int| 0 <= j < words.len() && #[trigger] words[j] == word;
    lemma_first_before(words, word, j);
}

proof fn lemma_first_before(words: Seq<Seq<char>>, word: Seq<char>, j: int)
    requires
        0 <= j < words.len(),
        words[j] == word,
    ensures
        exists|i: int| first_at(words, word, i),
    decreases j,
{
    if exists|i: int| 0 <= i < j && #[trigger] words[i] == word {
        let i = choose|i: int| 0 <= i < j && #[trigger] words[i] == word;
        lemma_first_before(words, word, i);
    } else {
        assert(first_at(words, word, j));
    }
}

/// A ranking is a matter of the words alone: what is a ranking of some
/// guesses over some answers in one word list is one in any other word list
/// that holds them.
pub proof fn lemma_ranking_mirror<W: WordTrait>(
    words: Seq<W>,
    other_words: Seq<W>,
    valid_guesses: Seq<W>,
    possible_answers: Seq<W>,
    ranking: Result<Vec<(W, usize)>, SearchExhausted>,
)
    requires
        words.len() <= usize::MAX,
        other_words.len() <= usize::MAX,
        all_known(words, valid_guesses),
        all_known(words, possible_answers),
        all_known(other_words, valid_guesses),
        all_known(other_words, possible_answers),
    ensures
        ranking_of(words, valid_guesses, possible_answers, ranking) == ranking_of(
            other_words,
            valid_guesses,
            possible_answers,
            ranking,
        ),
{
    let all = letters_of(words);
    let other_all = letters_of(other_words);
    let valid = positions(words, valid_guesses);
    let possible = positions(words, possible_answers);
    let other_valid = positions(other_words, valid_guesses);
    let other_possible = positions(other_words, possible_answers);
    lemma_positions(words, valid_guesses);
    lemma_positions(words, possible_answers);
    lemma_positions(other_words, valid_guesses);
    lemma_positions(other_words, possible_answers);
    assert(mirrors(all, valid, other_all, other_valid)) by {
        assert forall|k: int| 0 <= k < valid.len() implies (#[trigger] valid[k]) < all.len()
            && other_valid[k] < other_all.len() && all[valid[k] as int]
            == other_all[other_valid[k] as int] by {
            assert(all[position(all, valid_guesses[k].letters())] == valid_guesses[k].letters());
            assert(other_all[position(other_all, valid_guesses[k].letters())] == valid_guesses[k].letters());
        }
    }
    assert(mirrors(all, possible, other_all, other_possible)) by {
        assert forall|k: int| 0 <= k < possible.len() implies (#[trigger] possible[k])
            < all.len() && other_possible[k] < other_all.len() && all[possible[k] as int]
            == other_all[other_possible[k] as int] by {
            assert(all[position(all, possible_answers[k].letters())] == possible_answers[k].letters());
            assert(other_all[position(other_all, possible_answers[k].letters())] == possible_answers[k].letters());
        }
    }
    assert(same_repeats(valid, other_valid)) by {
        assert forall|i: int, j: int|
            0 <= i < valid.len() && 0 <= j < valid.len() implies (#[trigger] valid[i]
            == #[trigger] valid[j]) == (other_valid[i] == other_valid[j]) by {
            assert(all[position(all, valid_guesses[i].letters())] == valid_guesses[i].letters());
            assert(all[position(all, valid_guesses[j].letters())] == valid_guesses[j].letters());
            assert(other_all[position(other_all, valid_guesses[i].letters())] == valid_guesses[i].letters());
            assert(other_all[position(other_all, valid_guesses[j].letters())] == valid_guesses[j].letters());
        }
    }
    assert forall|g: int| 0 <= g < valid.len() implies #[trigger] score(
        all,
        valid[g],
        valid,
        possible,
    ) == score(other_all, other_valid[g], other_valid, other_possible) by {
        lemma_score_mirror(
            all,
            valid,
            possible,
            other_all,
            other_valid,
            other_possible,
            g,
            possible.len() as int,
        );
    }
    assert(all_scored(all, valid, possible) == all_scored(
        other_all,
        other_valid,
        other_possible,
    )) by {
        if all_scored(all, valid, possible) {
            assert forall|g: int| 0 <= g < other_valid.len() implies (#[trigger] score(
                other_all,
                other_valid[g],
                other_valid,
                other_possible,
            )) is Ok by {
                assert(score(all, valid[g], valid, possible) is Ok);
            }
        }
        if all_scored(other_all, other_valid, other_possible) {
            assert forall|g: int| 0 <= g < valid.len() implies (#[trigger] score(
                all,
                valid[g],
                valid,
                possible,
            )) is Ok by {
                assert(score(other_all, other_valid[g], other_valid, other_possible) is Ok);
            }
        }
    }
    assert(scores(all, valid, possible) =~= scores(other_all, other_valid, other_possible)) by {
        assert forall|g: int| 0 <= g < valid.len() implies scores(all, valid, possible)[g]
            == scores(other_all, other_valid, other_possible)[g] by {
            assert(score(all, valid[g], valid, possible) == score(
                other_all,
                other_valid[g],
                other_valid,
                other_possible,
            ));
        }
    }
}

/// Guessers that search agree, whatever word list each of them keeps, as
/// long as it holds the guesses and the answers: their rankings of the same
/// guesses over the same answers succeed or fail together, and hold the same
/// guesses with the same scores.
pub proof fn lemma_guessers_agree<W: WordTrait>(
    words: Seq<W>,
    other_words: Seq<W>,
    valid_guesses: Seq<W>,
    possible_answers: Seq<W>,
    one: Result<Vec<(W, usize)>, SearchExhausted>,
    other: Result<Vec<(W, usize)>, SearchExhausted>,
)
    requires
        words.len() <= usize::MAX,
        other_words.len() <= usize::MAX,
        all_known(words, valid_guesses),
        all_known(words, possible_answers),
        all_known(other_words, valid_guesses),
        all_known(other_words, possible_answers),
        ranking_of(words, valid_guesses, possible_answers, one),
        ranking_of(other_words, valid_guesses, possible_answers, other),
    ensures
        one is Ok == other is Ok,
        one is Ok ==> one->Ok_0@.to_multiset() == other->Ok_0@.to_multiset(),
        one is Ok ==> ascending(one->Ok_0@) && ascending(other->Ok_0@),
{
    lemma_ranking_mirror(words, other_words, valid_guesses, possible_answers, other);
    lemma_rankings_agree(words, valid_guesses, possible_answers, one, other);
}

/// A guesser that works in the valid guesses themselves and one that works
/// in a word list of its own agree, where that list holds the guesses and
/// the guesses hold the answers: their rankings succeed or fail together,
/// and where they succeed both ascend and hold the same guesses with the
/// same scores.
pub proof fn lemma_word_list_does_not_matter<W: WordTrait>(
    words: Seq<W>,
    valid_guesses: Seq<W>,
    possible_answers: Seq<W>,
    plain: Result<Vec<(W, usize)>, SearchExhausted>,
    tabled: Result<Vec<(W, usize)>, SearchExhausted>,
)
    requires
        words.len() <= usize::MAX,
        valid_guesses.len() <= usize::MAX,
        all_known(words, valid_guesses),
        all_known(valid_guesses, possible_answers),
        ranking_of(valid_guesses, valid_guesses, possible_answers, plain),
        ranking_of(words, valid_guesses, possible_answers, tabled),
    ensures
        plain is Ok == tabled is Ok,
        plain is Ok ==> plain->Ok_0@.to_multiset() == tabled->Ok_0@.to_multiset(),
        plain is Ok ==> ascending(plain->Ok_0@) && ascending(tabled->Ok_0@),
{
    lemma_known_in_itself(valid_guesses);
    assert(all_known(words, possible_answers)) by {
        assert forall|k: int| 0 <= k < possible_answers.len() implies known(
            letters_of(words),
            #[trigger] possible_answers[k].letters(),
        ) by {
            let w = possible_answers[k].letters();
            assert(known(letters_of(valid_guesses), w));
            let j = choose|j: int|
                0 <= j < letters_of(valid_guesses).len() && #[trigger] letters_of(
                    valid_guesses,
                )[j] == w;
            assert(known(letters_of(words), valid_guesses[j].letters()));
        }
    }
    lemma_guessers_agree(valid_guesses, words, valid_guesses, possible_answers, plain, tabled);
}

} // verus!
