//! Guessers over words whose patterns carry their letters: the one-step
//! heuristic, and lookahead with an optional cache of patterns.
//! A third guesser looks ahead exhaustively, to bounds of its own.

pub mod bfs_bruteforce_guesser;
pub mod bfs_guesser;
pub mod bfs_smart;
pub mod naive_guesser;

use crate::engine::feedback;
use crate::guesser_family::guess_set::{all_below, SearchExhausted, MAX_DEPTH};
use crate::guesser_family::ranking::{
    all_scored, ascending, first_at, known, position, rank_all, ranked, scored, scores,
};
use crate::guesser_family::backlog::lemma_split;
use crate::guesser_family::{lemma_cell, PatternSource};
use itertools::Itertools;
use crate::words::{letters, painted, verdicts, Pattern, Word};
use vstd::prelude::*;

pub use bfs_bruteforce_guesser::BFSBruteforceGuesser;
pub use bfs_smart::BFSSmartGuesser;
pub use naive_guesser::NaiveGuesser;

verus! {

/// The letters of each word of a list.
pub open spec fn spelled<const N: usize>(words: Seq<Word<N>>) -> Seq<Seq<char>> {
    words.map_values(|w: Word<N>| w@)
}

/// The patterns of each of some guesses against each of some answers, row
/// by row: the row of a guess holds its pattern against each answer.
pub struct PatternCache<const N: usize> {
    pub guesses: Vec<Word<N>>,
    pub answers: Vec<Word<N>>,
    pub patterns: Vec<Pattern<N>>,
}

impl<const N: usize> PatternCache<N> {
    /// The cache holds the pattern of each of its guesses against each of
    /// its answers.
    pub open spec fn filled(&self) -> bool {
        &&& self.guesses@.len() * self.answers@.len() <= usize::MAX
        &&& self.patterns@.len() == self.guesses@.len() * self.answers@.len()
        &&& forall|g: int, a: int|
            0 <= g < self.guesses@.len() && 0 <= a < self.answers@.len()
                ==> (#[trigger] self.patterns@[g * self.answers@.len() + a])@ == painted(
                self.guesses@[g]@,
                feedback(self.guesses@[g]@, self.answers@[a]@),
            )
    }

    /// The pattern of the guess against the answer, where the cache holds
    /// both words.
    pub fn get(&self, guess: &Word<N>, answer: &Word<N>) -> (pattern: Option<Pattern<N>>)
        requires
            self.filled(),
        ensures
            pattern is Some == (known(spelled(self.guesses@), guess@) && known(
                spelled(self.answers@),
                answer@,
            )),
            pattern is Some ==> pattern->0@ == painted(guess@, feedback(guess@, answer@)),
    {
        match place_of(self.guesses.as_slice(), guess) {
            None => None,
            Some(g) => match place_of(self.answers.as_slice(), answer) {
                None => None,
                Some(a) => {
                    proof {
                        lemma_cell(
                            g as int,
                            a as int,
                            self.guesses@.len() as int,
                            self.answers@.len() as int,
                        );
                        assert(spelled(self.guesses@)[g as int] == guess@);
                        assert(spelled(self.answers@)[a as int] == answer@);
                    }
                    Some(self.patterns[g * self.answers.len() + a])
                },
            },
        }
    }
}

/// Finds the first place of a word in a list.
pub fn place_of<const N: usize>(words: &[Word<N>], word: &Word<N>) -> (place: Option<usize>)
    ensures
        match place {
            Some(j) => first_at(spelled(words@), word@, j as int) && j == position(
                spelled(words@),
                word@,
            ),
            None => !known(spelled(words@), word@),
        },
{
    let mut j: usize = 0;
    while j < words.len()
        invariant
            j <= words@.len(),
            forall|i: int| 0 <= i < j ==> #[trigger] spelled(words@)[i] != word@,
        decreases words@.len() - j,
    {
        if words[j].same(word) {
            proof {
                assert(first_at(spelled(words@), word@, j as int));
                let c = position(spelled(words@), word@);
                assert(first_at(spelled(words@), word@, c));
                if c < j {
                    assert(spelled(words@)[c] != word@);
                }
                if j < c {
                    assert(spelled(words@)[j as int] != word@);
                }
            }
            return Some(j);
        }
        j += 1;
    }
    None
}

/// The places of the words of `some` in `words`.
pub open spec fn places_in<const N: usize>(words: Seq<Word<N>>, some: Seq<Word<N>>) -> Seq<usize> {
    Seq::new(some.len(), |k: int| position(spelled(words), some[k]@) as usize)
}

/// Every word of `some` is one of `words`.
pub open spec fn all_listed<const N: usize>(words: Seq<Word<N>>, some: Seq<Word<N>>) -> bool {
    forall|k: int| 0 <= k < some.len() ==> known(spelled(words), #[trigger] some[k]@)
}

/// Finds the place of each word of `some` in `words`, which holds them all.
pub fn places_of<const N: usize>(words: &[Word<N>], some: &[Word<N>]) -> (places: Vec<usize>)
    requires
        all_listed(words@, some@),
    ensures
        places@ == places_in(words@, some@),
        all_below(places@, words@.len()),
{
    let mut places: Vec<usize> = Vec::new();
    let mut k: usize = 0;
    while k < some.len()
        invariant
            k <= some@.len(),
            all_listed(words@, some@),
            places@.len() == k,
            forall|i: int| 0 <= i < k ==> #[trigger] places@[i] == places_in(words@, some@)[i],
            forall|i: int| 0 <= i < k ==> #[trigger] places@[i] < words@.len(),
        decreases some@.len() - k,
    {
        assert(known(spelled(words@), some@[k as int]@));
        match place_of(words, &some[k]) {
            Some(j) => {
                places.push(j);
            },
            None => {
                assert(false);
            },
        }
        k += 1;
    }
    assert(places@ =~= places_in(words@, some@));
    places
}

/// The numbers below `n`, in order.
pub open spec fn every(n: nat) -> Seq<usize> {
    Seq::new(n, |k: int| k as usize)
}

/// The numbers below `n`, in order.
pub fn count_up(n: usize) -> (all: Vec<usize>)
    ensures
        all@ == every(n as nat),
        all_below(all@, n as nat),
{
    let mut all: Vec<usize> = Vec::new();
    let mut k: usize = 0;
    while k < n
        invariant
            k <= n,
            all@.len() == k,
            forall|i: int| 0 <= i < k ==> all@[i] == i,
        decreases n - k,
    {
        all.push(k);
        k += 1;
    }
    assert(all@ =~= every(n as nat));
    all
}

/// `Itertools::cartesian_product`, of the numbers below `rows` with the
/// numbers below `width`: every pair of one of the first and one of the
/// second, row by row, so that the pair of `g` and `a` stands at place
/// `g * width + a`.
#[verifier::external_body]
pub(crate) fn cells(rows: usize, width: usize) -> (all: Vec<(usize, usize)>)
    requires
        rows * width <= usize::MAX,
    ensures
        all@.len() == rows * width,
        forall|c: int|
            0 <= c < all@.len() ==> (#[trigger] all@[c]).0 < rows && all@[c].1 < width
                && all@[c].0 * width + all@[c].1 == c,
{
    (0..rows).cartesian_product(0..width).collect()
}

/// Works out the pattern of each guess against each answer.
pub fn prepare_patterns<const N: usize>(guesses: &[Word<N>], answers: &[Word<N>]) -> (cache:
    PatternCache<N>)
    requires
        guesses@.len() * answers@.len() <= usize::MAX,
    ensures
        cache.filled(),
        cache.guesses@ == guesses@,
        cache.answers@ == answers@,
{
    let width = answers.len();
    let all = cells(guesses.len(), width);
    let mut patterns: Vec<Pattern<N>> = Vec::new();
    let mut c: usize = 0;
    while c < all.len()
        invariant
            c <= all@.len(),
            width == answers@.len(),
            all@.len() == guesses@.len() * width,
            patterns@.len() == c,
            forall|i: int|
                0 <= i < all@.len() ==> (#[trigger] all@[i]).0 < guesses@.len() && all@[i].1
                    < width && all@[i].0 * width + all@[i].1 == i,
            forall|i: int|
                0 <= i < c ==> (#[trigger] patterns@[i])@ == painted(
                    guesses@[all@[i].0 as int]@,
                    feedback(guesses@[all@[i].0 as int]@, answers@[all@[i].1 as int]@),
                ),
        decreases all@.len() - c,
    {
        let (g, a) = all[c];
        patterns.push(Pattern::from_guess2(&guesses[g], &answers[a]));
        c += 1;
    }
    proof {
        assert forall|g: int, a: int|
            0 <= g < guesses@.len() && 0 <= a < width implies (#[trigger] patterns@[g * width
            + a])@
            == painted(guesses@[g]@, feedback(guesses@[g]@, answers@[a]@)) by {
            lemma_cell(g, a, guesses@.len() as int, width as int);
            let at = all@[g * width + a];
            lemma_split(at.0 as int, at.1 as int, g, a, width as int);
        }
    }
    PatternCache { guesses: copy_of(guesses), answers: copy_of(answers), patterns }
}

/// A copy of a list of words.
pub fn copy_of<const N: usize>(words: &[Word<N>]) -> (copy: Vec<Word<N>>)
    ensures
        copy@ == words@,
{
    let mut copy: Vec<Word<N>> = Vec::new();
    let mut k: usize = 0;
    while k < words.len()
        invariant
            k <= words@.len(),
            copy@ == words@.take(k as int),
        decreases words@.len() - k,
    {
        copy.push(words[k]);
        assert(words@.take(k as int).push(words@[k as int]) =~= words@.take(k as int + 1));
        k += 1;
    }
    assert(words@.take(words@.len() as int) =~= words@);
    copy
}

/// A word list with, perhaps, a cache of patterns: a pattern is taken from
/// the cache where it is there, and worked out where it is not.
pub struct Lookup<'a, const N: usize> {
    pub words: &'a [Word<N>],
    pub cache: Option<&'a PatternCache<N>>,
}

impl<'a, const N: usize> PatternSource for Lookup<'a, N> {
    open spec fn words(&self) -> Seq<Seq<char>> {
        spelled(self.words@)
    }

    open spec fn wf(&self) -> bool {
        self.cache is Some ==> self.cache->0.filled()
    }

    fn size(&self) -> (n: usize) {
        self.words.len()
    }

    fn same_feedback(&self, guess: usize, answer: usize, other: usize) -> (same: bool) {
        let found = match self.cache {
            Some(cache) => cache.get(&self.words[guess], &self.words[answer]),
            None => None,
        };
        let pattern = match found {
            Some(pattern) => pattern,
            None => Pattern::from_guess2(&self.words[guess], &self.words[answer]),
        };
        assert(letters(pattern@) =~= self.words@[guess as int]@);
        assert(verdicts(pattern@) =~= feedback(
            self.words@[guess as int]@,
            self.words@[answer as int]@,
        ));
        self.words[other].matches(&pattern)
    }
}

/// What a ranking by lookahead is, for these guessers: the valid guesses
/// are the word list, each a guess of its own, and each possible answer
/// stands for its first place among them. Where the search succeeds for
/// every guess and answer, the ranking lists every valid guess with its
/// score, by ascending score. Where one search fails, the ranking fails.
pub open spec fn lookahead_ranking<const N: usize>(
    valid_guesses: Seq<Word<N>>,
    possible_answers: Seq<Word<N>>,
    ranking: Result<Vec<(Word<N>, usize)>, SearchExhausted>,
) -> bool {
    let words = spelled(valid_guesses);
    let valid = every(valid_guesses.len());
    let possible = places_in(valid_guesses, possible_answers);
    match ranking {
        Ok(list) => {
            &&& all_scored(words, valid, possible)
            &&& ascending(list@)
            &&& list@.to_multiset() == scored(
                valid_guesses,
                scores(words, valid, possible),
            ).to_multiset()
        },
        Err(_) => !all_scored(words, valid, possible),
    }
}

/// Ranks the valid guesses by best-first lookahead, with the cache if there
/// is one.
pub fn rank_by_lookahead<const N: usize>(
    valid_guesses: &[Word<N>],
    possible_answers: &[Word<N>],
    pattern_cache: Option<&PatternCache<N>>,
) -> (ranking: Result<Vec<(Word<N>, usize)>, SearchExhausted>)
    requires
        pattern_cache is Some ==> pattern_cache->0.filled(),
        all_listed(valid_guesses@, possible_answers@),
        possible_answers@.len() * MAX_DEPTH <= usize::MAX,
    ensures
        lookahead_ranking(valid_guesses@, possible_answers@, ranking),
{
    let src = Lookup { words: valid_guesses, cache: pattern_cache };
    let valid = count_up(valid_guesses.len());
    let possible = places_of(valid_guesses, possible_answers);
    match rank_all(&src, valid.as_slice(), possible.as_slice()) {
        Ok(totals) => Ok(ranked(valid_guesses, &totals)),
        Err(e) => Err(e),
    }
}

/// A guesser chosen at run time.
#[derive(Debug, Clone, Copy)]
pub enum GuesserWrapper {
    Naive(NaiveGuesser),
    BFSSmart(BFSSmartGuesser),
}

impl GuesserWrapper {
    /// Ranks the valid guesses with the guesser that was chosen. The
    /// heuristic always succeeds; lookahead fails where a search does.
    pub fn rank_guesses<const N: usize>(
        &self,
        valid_guesses: &[Word<N>],
        possible_answers: &[Word<N>],
        pattern_cache: Option<&PatternCache<N>>,
    ) -> (ranking: Result<Vec<(Word<N>, usize)>, SearchExhausted>)
        requires
            self is Naive ==> possible_answers@.len() * possible_answers@.len() <= usize::MAX,
            self is BFSSmart ==> {
                &&& pattern_cache is Some ==> pattern_cache->0.filled()
                &&& all_listed(valid_guesses@, possible_answers@)
                &&& possible_answers@.len() * MAX_DEPTH <= usize::MAX
            },
        ensures
            self is Naive ==> {
                &&& ranking is Ok
                &&& ascending(ranking->Ok_0@)
                &&& ranking->Ok_0@.to_multiset() == scored(
                    valid_guesses@,
                    naive_guesser::naive_scores(valid_guesses@, possible_answers@),
                ).to_multiset()
            },
            self is BFSSmart ==> lookahead_ranking(valid_guesses@, possible_answers@, ranking),
    {
        match self {
            GuesserWrapper::Naive(g) => Ok(g.rank_guesses(valid_guesses, possible_answers)),
            GuesserWrapper::BFSSmart(g) => g.rank_guesses(
                valid_guesses,
                possible_answers,
                pattern_cache,
            ),
        }
    }
}

} // verus!
