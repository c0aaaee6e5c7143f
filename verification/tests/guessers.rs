use rustybovich::guesser::bfs_guesser::BfsGuesser as DequeGuesser;
use rustybovich::guesser::{
    prepare_patterns, BFSBruteforceGuesser, BFSSmartGuesser, GuesserWrapper, NaiveGuesser,
};
use rustybovich::guesser_family::backlog::key_of;
use rustybovich::guesser_family::frontier::{best_first_depth, P};
use rustybovich::guesser_family::guess_set::{
    contains, count_survivors, insert, len_of, SearchExhausted, NO_GUESS,
};
use rustybovich::guesser_family::ranking::{index_of, indices_of, ranked};
use rustybovich::guesser_family::GuesserWrapper as Chosen;
use rustybovich::guesser_family::{
    BfsGuesser, BfsGuesserCachedPatterns, BfsGuesserFullCache, Guesser, PatternTable, WordList,
};
use rustybovich::words::Word;
use rustybovich::words_family::words_1::{Family1, Word1};
use std::collections::HashMap;
use std::str::FromStr;

type Fam = Family1<3>;

fn family(texts: &[&str]) -> Vec<Word1<3>> {
    texts.iter().map(|t| Word1::from_str(t).unwrap()).collect()
}

fn plain(texts: &[&str]) -> Vec<Word<3>> {
    texts.iter().map(|t| Word::from_str(t).unwrap()).collect()
}

fn by_word<W: Ord + Copy>(mut ranking: Vec<(W, usize)>) -> Vec<(W, usize)> {
    ranking.sort();
    ranking
}

fn is_ascending<W>(ranking: &[(W, usize)]) -> bool {
    ranking.windows(2).all(|w| w[0].1 <= w[1].1)
}

const WORDS: [&str; 4] = ["abc", "abd", "abe", "xyz"];

#[test]
fn naive_scores_are_exact() {
    let words = plain(&WORDS);
    let naive = NaiveGuesser;
    assert_eq!(naive.rank_guess(&words[0], &words, &words), 6);
    assert_eq!(naive.rank_guess(&words[1], &words, &words), 6);
    assert_eq!(naive.rank_guess(&words[3], &words, &words), 10);
    let ranking = naive.rank_guesses(&words, &words);
    assert!(is_ascending(&ranking));
    assert_eq!(ranking[3], (words[3], 10));
    assert_eq!(
        by_word(ranking),
        vec![(words[0], 6), (words[1], 6), (words[2], 6), (words[3], 10)]
    );
}

#[test]
fn naive_score_lies_between_count_and_square() {
    let words = plain(&["abc", "abd", "abe", "xyz", "bca", "cab", "aaa", "zzz"]);
    let naive = NaiveGuesser;
    for guess in &words {
        let total = naive.rank_guess(guess, &words, &words);
        assert!(words.len() <= total && total <= words.len() * words.len());
    }
    assert_eq!(naive.rank_guess(&words[0], &words, &[]), 0);
}

#[test]
fn naive_total_does_not_grow_when_answers_are_dropped() {
    let words = plain(&["abc", "abd", "abe", "xyz", "bca", "cab", "aaa", "zzz"]);
    let fewer = plain(&["abd", "xyz", "cab", "zzz"]);
    let naive = NaiveGuesser;
    for guess in &words {
        assert!(naive.rank_guess(guess, &words, &fewer) <= naive.rank_guess(guess, &words, &words));
    }
}

#[test]
fn lookahead_depths_are_exact() {
    let words = family(&WORDS);
    let all = [0usize, 1, 2, 3];
    let depth = |g: usize, a: usize| {
        BfsGuesser::rank_guess_against_answer::<Fam>(g, a, &words, &all, &all)
    };
    assert_eq!(depth(0, 0), Ok(1));
    assert_eq!(depth(0, 1), Ok(2));
    assert_eq!(depth(0, 2), Ok(2));
    assert_eq!(depth(0, 3), Ok(1));
    assert_eq!(depth(3, 0), Ok(2));
    assert_eq!(depth(3, 3), Ok(1));
    assert_eq!(BfsGuesser::new().rank_guess::<Fam>(0, &words, &all, &all), Ok(6));
    assert_eq!(BfsGuesser::new().rank_guess::<Fam>(3, &words, &all, &all), Ok(7));
}

#[test]
fn lookahead_stops_at_the_depth_limit() {
    let words = family(&WORDS);
    // Two copies of one answer can never be told apart.
    let twice = [0usize, 0];
    assert_eq!(
        BfsGuesser::rank_guess_against_answer::<Fam>(0, 0, &words, &[0, 1, 2, 3], &twice),
        Ok(3)
    );
    assert_eq!(
        BfsGuesser::rank_guess_against_answer::<Fam>(0, 0, &words, &[0, 1, 2], &twice),
        Ok(3)
    );
}

#[test]
fn lookahead_fails_where_guesses_run_out() {
    let words = family(&WORDS);
    let twice = [0usize, 0];
    assert_eq!(
        BfsGuesser::rank_guess_against_answer::<Fam>(0, 0, &words, &[0, 1], &twice),
        Err(SearchExhausted)
    );
    assert_eq!(
        BfsGuesser::rank_guess_against_answer::<Fam>(0, 0, &words, &[0], &twice),
        Err(SearchExhausted)
    );
    assert_eq!(
        BfsGuesser::rank_guess_against_answer::<Fam>(0, 0, &words, &[], &twice),
        Err(SearchExhausted)
    );
    let answers = family(&["abc", "abc"]);
    assert_eq!(
        BfsGuesser::new().rank_guesses::<Fam>(&words[..2], &answers),
        Err(SearchExhausted)
    );
}

#[test]
fn the_three_lookahead_guessers_agree() {
    let words = family(&["abc", "abd", "abe", "xyz", "bca", "cab", "aaa", "zzz", "axz"]);
    let answers = family(&["abd", "abe", "xyz", "cab", "aaa"]);
    let plain_ranking = BfsGuesser::new().rank_guesses::<Fam>(&words, &answers).unwrap();
    let cached = BfsGuesserCachedPatterns::<Fam>::new(&words);
    let cached_ranking = cached.rank_guesses(&words, &answers).unwrap();
    let full = BfsGuesserFullCache::<Fam>::new(&words);
    let full_ranking = full.rank_guesses(&words, &answers).unwrap();
    assert!(is_ascending(&plain_ranking));
    assert!(is_ascending(&cached_ranking));
    assert!(is_ascending(&full_ranking));
    assert_eq!(plain_ranking.len(), words.len());
    assert_eq!(by_word(plain_ranking.clone()), by_word(cached_ranking));
    assert_eq!(by_word(plain_ranking.clone()), by_word(full_ranking));
    for (_, total) in plain_ranking {
        assert!(answers.len() <= total && total <= 3 * answers.len());
    }
}

#[test]
fn lookahead_ranking_is_exact() {
    let words = family(&WORDS);
    let expected = vec![(words[0], 6), (words[1], 6), (words[2], 6), (words[3], 7)];
    let ranking = BfsGuesser::new().rank_guesses::<Fam>(&words, &words).unwrap();
    assert_eq!(ranking[3], (words[3], 7));
    assert_eq!(by_word(ranking), expected);
    let cached = BfsGuesserCachedPatterns::<Fam>::new(&words);
    assert_eq!(by_word(cached.rank_guesses(&words, &words).unwrap()), expected);
    assert_eq!(cached.rank_guess(3, &[0, 1, 2, 3], &[0, 1, 2, 3]), Ok(7));
    assert_eq!(cached.rank_guess_against_answer(3, 0, &[0, 1, 2, 3], &[0, 1, 2, 3]), Ok(2));
    let full = BfsGuesserFullCache::<Fam>::new(&words);
    assert_eq!(by_word(full.rank_guesses(&words, &words).unwrap()), expected);
}

#[test]
fn memo_is_shared_between_first_guesses() {
    let words = family(&WORDS);
    let full = BfsGuesserFullCache::<Fam>::new(&words);
    let all = [0usize, 1, 2, 3];
    let mut memo = HashMap::new();
    assert_eq!(full.rank_guess_against_answer(3, 0, &all, &all, &mut memo), Ok(2));
    let after_first = memo.len();
    assert!(after_first >= 2);
    assert_eq!(memo.get(&full.hash(&(3, NO_GUESS, NO_GUESS))), Some(&3));
    assert_eq!(full.rank_guess_against_answer(0, 0, &all, &all, &mut memo), Ok(1));
    assert_eq!(full.rank_guess_against_answer(3, 0, &all, &all, &mut memo), Ok(2));
    let twice = [0usize, 0];
    let mut memo = HashMap::new();
    assert_eq!(full.rank_guess_against_answer(0, 0, &all, &twice, &mut memo), Ok(3));
    assert_eq!(full.rank_guess_against_answer(1, 0, &all, &twice, &mut memo), Ok(3));
    let mut memo = HashMap::new();
    assert_eq!(
        full.rank_guess_against_answer(0, 0, &[0, 1], &twice, &mut memo),
        Err(SearchExhausted)
    );
}

#[test]
fn pattern_table_holds_compact_patterns() {
    let words = family(&WORDS);
    let table = PatternTable::<Fam>::new(&words);
    assert_eq!(table.size, 4);
    assert_eq!(table.patterns.len(), 16);
    assert_eq!(table.pattern(0, 0), 0);
    assert_eq!(table.pattern(0, 1), 18);
    assert_eq!(table.pattern(0, 3), 26);
    let cached = BfsGuesserCachedPatterns::<Fam>::new(&words);
    assert_eq!(cached.pattern(1, 0), 18);
    let full = BfsGuesserFullCache::<Fam>::new(&words);
    assert_eq!(full.pattern(3, 3), 0);
}

#[test]
fn keys_of_guess_sets() {
    // Greatest guess first: 2 * 7^3 + 1 * 7^2 + 0 * 7.
    assert_eq!(key_of(&(0, 1, 2), 7), 735);
    assert_eq!(key_of(&(0, NO_GUESS, NO_GUESS), 4), 0);
    assert_eq!(key_of(&(3, NO_GUESS, NO_GUESS), 4), 12);
    assert_eq!(key_of(&(0, 1, NO_GUESS), 4), 16);
    assert_eq!(key_of(&(1, 2, 3), 4), 3 * 64 + 2 * 16 + 4);
    assert_eq!(key_of(&(NO_GUESS, NO_GUESS, NO_GUESS), 4), 0);
    assert_eq!(
        key_of(&(65_532, 65_533, 65_534), 65_535),
        65_534 * 65_535u64.pow(3) + 65_533 * 65_535u64.pow(2) + 65_532 * 65_535
    );
}

#[test]
fn no_two_guess_sets_share_a_key() {
    let size = 6usize;
    let mut sets = Vec::new();
    for a in 0..size {
        sets.push((a, NO_GUESS, NO_GUESS));
        for b in a + 1..size {
            sets.push((a, b, NO_GUESS));
            for c in b + 1..size {
                sets.push((a, b, c));
            }
        }
    }
    let mut keys: Vec<u64> = sets.iter().map(|set| key_of(set, size)).collect();
    keys.sort();
    keys.dedup();
    assert_eq!(keys.len(), sets.len());
    let words = family(&["abc", "abd", "abe", "xyz", "bca", "cab", "aaa"]);
    let full = BfsGuesserFullCache::<Fam>::new(&words);
    assert_eq!(full.hash(&(0, 1, 2)), 735);
}

#[test]
fn guess_sets_are_canonical() {
    let one = (5usize, NO_GUESS, NO_GUESS);
    assert_eq!(len_of(one), 1);
    assert_eq!(insert(one, 2), (2, 5, NO_GUESS));
    assert_eq!(insert(one, 7), (5, 7, NO_GUESS));
    assert_eq!(insert(insert(one, 7), 6), (5, 6, 7));
    assert_eq!(insert(insert(one, 7), 1), (1, 5, 7));
    assert_eq!(insert(insert(one, 7), 9), (5, 7, 9));
    assert_eq!(insert(insert(one, 2), 9), insert(insert(one, 9), 2));
    assert_eq!(len_of((5, 7, 9)), 3);
    assert!(contains((5, 7, 9), 7));
    assert!(!contains((5, 7, NO_GUESS), 9));
    assert!(!contains((5, 7, NO_GUESS), NO_GUESS));
}

#[test]
fn survivors_are_counted() {
    let words = family(&WORDS);
    let src = WordList::<Fam> { words: &words };
    let all = [0usize, 1, 2, 3];
    assert_eq!(count_survivors(&src, (3, NO_GUESS, NO_GUESS), 0, &all), 3);
    assert_eq!(count_survivors(&src, (0, 3, NO_GUESS), 0, &all), 1);
    assert_eq!(count_survivors(&src, (0, NO_GUESS, NO_GUESS), 1, &all), 2);
    assert_eq!(count_survivors(&src, (0, NO_GUESS, NO_GUESS), 1, &[]), 0);
    assert_eq!(best_first_depth(&src, 3, 1, &all, &all), Ok(2));
}

#[test]
fn priorities_rank_shallow_and_narrow_first() {
    let shallow = P::new(1, 9).rank();
    let deep = P::new(2, 2).rank();
    let narrow = P::new(2, 1).rank();
    assert!(shallow > narrow);
    assert!(narrow > deep);
    assert_eq!(P::new(1, 9), P { depth: 1, answers_left: 9 });
    assert_eq!(P::new(0, 0).rank(), (usize::MAX, usize::MAX));
}

#[test]
fn words_are_found_by_their_first_place() {
    let words = family(&["abc", "abd", "abc", "xyz"]);
    assert_eq!(index_of(&words, &words[2]), Some(0));
    assert_eq!(index_of(&words, &words[3]), Some(3));
    assert_eq!(index_of(&words, &Word1::from_str("zzz").unwrap()), None);
    assert_eq!(indices_of(&words, &[words[3], words[2], words[1]]), vec![3, 0, 1]);
}

#[test]
fn ranked_sorts_by_score_and_keeps_ties_in_order() {
    let items = ['a', 'b', 'c', 'd', 'e'];
    let totals = vec![3usize, 1, 3, 0, 1];
    assert_eq!(
        ranked(&items, &totals),
        vec![('d', 0), ('b', 1), ('e', 1), ('a', 3), ('c', 3)]
    );
    assert_eq!(ranked::<char>(&[], &vec![]), vec![]);
}

#[test]
fn lookahead_on_plain_words() {
    let words = plain(&WORDS);
    let expected = vec![(words[0], 6), (words[1], 6), (words[2], 6), (words[3], 7)];
    let all = [0usize, 1, 2, 3];
    let cache = prepare_patterns(&words, &words);
    assert_eq!(cache.patterns.len(), 16);
    assert_eq!(
        cache.get(&words[0], &words[1]),
        Some(rustybovich::words::Pattern::from_description("abc", "gg.").unwrap())
    );
    assert_eq!(cache.get(&words[0], &Word::from_str("zzz").unwrap()), None);
    let smart = BFSSmartGuesser;
    assert_eq!(
        by_word(smart.rank_guesses(&words, &words, Some(&cache)).unwrap()),
        expected
    );
    assert_eq!(by_word(smart.rank_guesses(&words, &words, None).unwrap()), expected);
    assert_eq!(smart.rank_guess(3, &words, &all, &all, Some(&cache)), Ok(7));
    assert_eq!(
        BFSSmartGuesser::rank_guess_against_answer(3, 0, &words, &all, &all, None),
        Ok(2)
    );
    let deque = DequeGuesser;
    assert_eq!(by_word(deque.rank_guesses(&words, &words).unwrap()), expected);
    assert_eq!(deque.rank_guess(0, &words, &all, &all), Ok(6));
    assert_eq!(
        DequeGuesser::rank_guess_against_answer(0, 1, &words, &all, &all),
        Ok(2)
    );
    assert_eq!(
        DequeGuesser::rank_guess_against_answer_deque(0, 0, &words, &[0, 1], &[0, 0]),
        Err(SearchExhausted)
    );
    assert_eq!(
        DequeGuesser::rank_guess_against_answer_deque(0, 0, &words, &all, &[0, 0]),
        Ok(3)
    );
}

#[test]
fn wrapper_picks_the_guesser() {
    let words = plain(&WORDS);
    let naive = GuesserWrapper::Naive(NaiveGuesser);
    let smart = GuesserWrapper::BFSSmart(BFSSmartGuesser);
    assert_eq!(
        by_word(naive.rank_guesses(&words, &words, None).unwrap()),
        vec![(words[0], 6), (words[1], 6), (words[2], 6), (words[3], 10)]
    );
    assert_eq!(
        by_word(smart.rank_guesses(&words, &words, None).unwrap()),
        vec![(words[0], 6), (words[1], 6), (words[2], 6), (words[3], 7)]
    );
}

#[test]
fn any_guesser_can_be_chosen_at_run_time() {
    let words = family(&WORDS);
    let expected = vec![(words[0], 6), (words[1], 6), (words[2], 6), (words[3], 7)];
    let all: Vec<Chosen<Fam>> = vec![
        Chosen::Bfs(BfsGuesser::new()),
        Chosen::BfsCache(BfsGuesserCachedPatterns::<Fam>::new(&words)),
        Chosen::BfsFullCache(BfsGuesserFullCache::<Fam>::new(&words)),
    ];
    for guesser in &all {
        let ranking = guesser.rank_guesses(&words, &words).unwrap();
        assert!(is_ascending(&ranking));
        assert_eq!(by_word(ranking), expected);
    }
    let answers = family(&["abc", "abc"]);
    for guesser in &all {
        assert_eq!(guesser.rank_guesses(&words[..2], &answers), Err(SearchExhausted));
    }
}

#[test]
fn cached_guessers_rank_part_of_their_word_list() {
    let words = family(&["abc", "abd", "abe", "xyz", "bca", "cab", "aaa", "zzz", "axz"]);
    let guesses = family(&["zzz", "abd", "cab", "axz"]);
    let answers = family(&["abd", "cab", "axz"]);
    let plain_ranking = BfsGuesser::new().rank_guesses::<Fam>(&guesses, &answers).unwrap();
    let cached_ranking = BfsGuesserCachedPatterns::<Fam>::new(&words)
        .rank_guesses(&guesses, &answers)
        .unwrap();
    let full_ranking = BfsGuesserFullCache::<Fam>::new(&words)
        .rank_guesses(&guesses, &answers)
        .unwrap();
    assert_eq!(by_word(plain_ranking.clone()), by_word(cached_ranking));
    assert_eq!(by_word(plain_ranking), by_word(full_ranking));
}

#[test]
fn prepare_all_is_prepare_patterns() {
    let guesses = plain(&["abc", "xyz"]);
    let answers = plain(&["abd", "abe", "xyz"]);
    let cache = rustybovich::words::Pattern::prepare_all(&guesses, &answers);
    assert_eq!(cache.patterns.len(), 6);
    assert_eq!(cache.guesses, guesses);
    assert_eq!(cache.answers, answers);
    for (g, guess) in guesses.iter().enumerate() {
        for (a, answer) in answers.iter().enumerate() {
            let expected = rustybovich::words::Pattern::from_guess(guess, answer);
            assert_eq!(cache.patterns[g * 3 + a], expected);
            assert_eq!(cache.get(guess, answer), Some(expected));
        }
    }
    assert_eq!(cache.get(&answers[0], &answers[0]), None);
    let empty = prepare_patterns::<3>(&[], &answers);
    assert!(empty.patterns.is_empty());
}

#[test]
fn memo_only_grows() {
    let words = family(&WORDS);
    let full = BfsGuesserFullCache::<Fam>::new(&words);
    let all = [0usize, 1, 2, 3];
    let mut memo = HashMap::new();
    full.rank_guess_against_answer(3, 0, &all, &all, &mut memo).unwrap();
    let before = memo.clone();
    full.rank_guess_against_answer(1, 0, &all, &all, &mut memo).unwrap();
    for (key, left) in &before {
        assert_eq!(memo.get(key), Some(left));
    }
    assert!(memo.contains_key(&full.hash(&(1, NO_GUESS, NO_GUESS))));
}

#[test]
fn naive_mean_can_rise_when_an_answer_is_dropped() {
    let naive = NaiveGuesser;
    let guess = plain(&["zzz"])[0];
    let answers = plain(&["abc", "abd", "zzz"]);
    let fewer = plain(&["abc", "abd"]);
    let total = naive.rank_guess(&guess, &[], &answers);
    let total_of_fewer = naive.rank_guess(&guess, &[], &fewer);
    assert_eq!(total, 5);
    // The dropped answer counted once, for itself alone.
    assert_eq!(total_of_fewer, total - 2 * 1 + 1);
    assert!(total_of_fewer <= total);
    assert!(total_of_fewer * answers.len() > total * fewer.len());
    // Dropping an answer of the large class lowers the mean.
    let other = plain(&["abc", "zzz"]);
    let total_of_other = naive.rank_guess(&guess, &[], &other);
    assert_eq!(total_of_other, total - 2 * 2 + 1);
    assert!(total_of_other * answers.len() <= total * other.len());
}

#[test]
fn deque_search_needs_no_memo() {
    let words = plain(&["abc", "abd", "abe", "xyz", "bca", "cab", "aaa", "zzz", "axz"]);
    let answers = plain(&["abd", "abe", "xyz", "cab", "aaa"]);
    let deque = DequeGuesser;
    let smart = BFSSmartGuesser;
    assert_eq!(
        by_word(deque.rank_guesses(&words, &answers).unwrap()),
        by_word(smart.rank_guesses(&words, &answers, None).unwrap())
    );
    let all: Vec<usize> = (0..words.len()).collect();
    // Two valid guesses that are one word give one set, queued once.
    assert_eq!(
        DequeGuesser::rank_guess_against_answer_deque(0, 0, &words, &[0, 1, 1, 2], &[0, 0]),
        Ok(3)
    );
    assert_eq!(
        DequeGuesser::rank_guess_against_answer_deque(0, 0, &words, &[0, 1, 1], &[0, 0]),
        Err(SearchExhausted)
    );
    for answer in 0..words.len() {
        assert_eq!(
            DequeGuesser::rank_guess_against_answer_deque(3, answer, &words, &all, &all),
            DequeGuesser::rank_guess_against_answer(3, answer, &words, &all, &all)
        );
    }
}

#[test]
fn exhaustive_search_depths_are_exact() {
    let words = plain(&["abc", "abd", "abe", "abf", "xyz"]);
    let all = [0usize, 1, 2, 3, 4];
    let answers = [0usize, 1, 2, 3];
    // One guess is enough where it leaves at most three answers.
    assert_eq!(BFSBruteforceGuesser::bar(0, 0, &words, &all, &answers), Ok(1));
    assert_eq!(BFSBruteforceGuesser::bar(0, 4, &words, &all, &[0, 1, 2]), Ok(1));
    // "xyz" leaves all four; with "abc" after it one is left.
    assert_eq!(BFSBruteforceGuesser::bar(0, 4, &words, &all, &answers), Ok(2));
    // No second guess is enough, but "abd" and "abe" together are.
    assert_eq!(
        BFSBruteforceGuesser::bar(0, 4, &words, &[1, 2, 3, 4], &[0, 0, 0, 1, 2]),
        Ok(3)
    );
    // Four copies of one answer are never told apart.
    let copies = [0usize, 0, 0, 0];
    assert_eq!(BFSBruteforceGuesser::bar(0, 0, &words, &all, &copies), Ok(4));
    assert_eq!(BFSBruteforceGuesser::bar(0, 0, &words, &[0, 1, 2, 3], &copies), Ok(4));
    assert_eq!(
        BFSBruteforceGuesser::bar(0, 0, &words, &[0, 1, 2], &copies),
        Err(SearchExhausted)
    );
    assert_eq!(
        BFSBruteforceGuesser::bar(0, 0, &words, &[0, 1, 2, 2, 1], &copies),
        Err(SearchExhausted)
    );
    assert_eq!(BFSBruteforceGuesser::bar(0, 0, &words, &[], &copies), Err(SearchExhausted));
    assert_eq!(BFSBruteforceGuesser::rank_guess(4, &words, &all, &answers), Ok(8));
    assert_eq!(BFSBruteforceGuesser::rank_guess(0, &words, &all, &answers), Ok(4));
    assert_eq!(BFSBruteforceGuesser::rank_guess(0, &words, &all, &copies), Ok(16));
    assert_eq!(
        BFSBruteforceGuesser::rank_guess(0, &words, &[0, 1], &copies),
        Err(SearchExhausted)
    );
    assert_eq!(BFSBruteforceGuesser::rank_guess(0, &words, &all, &[]), Ok(0));
}
