use rustybovich::dictionary::{gather, put, read_words, side_of, Side};
use rustybovich::words_family::words_1::{Family1, Pattern1, Word1};
use rustybovich::words_family::{Family, PatternTrait, WordTrait};
use rustybovich::words_family::LetterType::{Absent, Correct, Misplaced};
use rustybovich::{Dictionary, IteratorIntoArrayError, StringDictionary};
use std::str::FromStr;

fn words(texts: &[&str]) -> Vec<Word1<3>> {
    texts.iter().map(|t| Word1::from_str(t).unwrap()).collect()
}

fn strings(texts: &[&str]) -> Vec<String> {
    texts.iter().map(|t| t.to_string()).collect()
}

#[test]
fn words_are_ordered_by_their_first_difference() {
    let w = words(&["abc", "abd", "bbc", "abc"]);
    assert_eq!(side_of(&w[0], &w[1]), Side::Before);
    assert_eq!(side_of(&w[1], &w[0]), Side::After);
    assert_eq!(side_of(&w[1], &w[2]), Side::Before);
    assert_eq!(side_of(&w[0], &w[3]), Side::Same);
    for a in &w {
        for b in &w {
            let expected = match a.cmp(b) {
                std::cmp::Ordering::Less => Side::Before,
                std::cmp::Ordering::Equal => Side::Same,
                std::cmp::Ordering::Greater => Side::After,
            };
            assert_eq!(side_of(a, b), expected);
        }
    }
}

#[test]
fn put_keeps_order_and_drops_repeats() {
    let mut list = Vec::new();
    for w in words(&["bbb", "abc", "zzz", "abc", "bbb", "aaa"]) {
        put(&mut list, w);
    }
    assert_eq!(list, words(&["aaa", "abc", "bbb", "zzz"]));
    gather(&mut list, &words(&["mmm", "aaa", "zzy"]));
    assert_eq!(list, words(&["aaa", "abc", "bbb", "mmm", "zzy", "zzz"]));
}

#[test]
fn normalized_sorts_and_merges() {
    let dictionary = Dictionary {
        valid: words(&["xyz", "abd", "abd", "abc"]),
        answers: words(&["bca", "abc", "bca"]),
    };
    let tidy = dictionary.normalized();
    assert_eq!(tidy.answers, words(&["abc", "bca"]));
    assert_eq!(tidy.valid, words(&["abc", "abd", "bca", "xyz"]));
    let again = Dictionary {
        valid: tidy.valid.clone(),
        answers: tidy.answers.clone(),
    }
    .normalized();
    assert_eq!(again.valid, tidy.valid);
    assert_eq!(again.answers, tidy.answers);
}

#[test]
fn normalized_copes_with_empty_lists() {
    let tidy = Dictionary::<3> { valid: vec![], answers: vec![] }.normalized();
    assert!(tidy.valid.is_empty() && tidy.answers.is_empty());
    let tidy = Dictionary { valid: vec![], answers: words(&["b", "a"].map(|_| "abc")) }.normalized();
    assert_eq!(tidy.valid, words(&["abc"]));
    assert_eq!(tidy.answers, words(&["abc"]));
}

#[test]
fn dictionary_from_strings() {
    let texts = StringDictionary {
        valid: strings(&["xyz", "abd", "abc"]),
        answers: strings(&["bca", "abc"]),
    };
    let dictionary = Dictionary::<3>::from_strings(&texts).unwrap();
    assert_eq!(dictionary.valid, words(&["abc", "abd", "bca", "xyz"]));
    assert_eq!(dictionary.answers, words(&["abc", "bca"]));
    assert!(Dictionary::<5>::from_strings(&texts).is_err());
    let bad = StringDictionary {
        valid: strings(&["xyz"]),
        answers: strings(&["b9a"]),
    };
    assert!(Dictionary::<3>::from_strings(&bad).is_err());
    assert_eq!(read_words::<3>(&strings(&["abc", "abcd"])), Err(IteratorIntoArrayError));
    assert_eq!(read_words::<3>(&strings(&["abc", "abd"])), Ok(words(&["abc", "abd"])));
    assert_eq!(read_words::<3>(&vec![]), Ok(vec![]));
}

#[test]
fn family_binds_words_and_patterns() {
    let guess = <Word1<5> as WordTrait>::new(['s', 'p', 'e', 'e', 'd']);
    let answer = <Word1<5> as WordTrait>::new(['a', 'b', 'i', 'd', 'e']);
    let pattern = <Family1<5> as Family>::from_guess(&guess, &answer);
    assert_eq!(
        pattern,
        <Pattern1<5> as PatternTrait>::new([Absent, Absent, Misplaced, Absent, Misplaced])
    );
    assert!(<Family1<5> as Family>::matches(&answer, &pattern, &guess));
    assert!(!<Family1<5> as Family>::matches(&guess, &pattern, &guess));
    let all = <Family1<5> as Family>::from_guess(&guess, &guess);
    assert_eq!(all, Pattern1::new([Correct; 5]));
}
