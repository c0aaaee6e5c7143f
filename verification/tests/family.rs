use rustybovich::engine;
use rustybovich::guesser_family::bfs_guesser_cached_patterns::PatternToU8;
use rustybovich::words_family::words_1::{Pattern1, Word1};
use rustybovich::words_family::LetterType::{Absent, Correct, Misplaced};
use rustybovich::IteratorIntoArrayError;
use std::str::FromStr;

fn word<const N: usize>(text: &str) -> Word1<N> {
    Word1::from_str(text).unwrap()
}

fn pattern<const N: usize>(text: &str) -> Pattern1<N> {
    Pattern1::from_str(text).unwrap()
}

#[test]
fn family_parse_word() {
    assert_eq!(
        Word1::from_str("crate"),
        Ok(Word1::new(['c', 'r', 'a', 't', 'e']))
    );
    assert_eq!(Word1::<3>::from_str("foo"), Ok(Word1::new(['f', 'o', 'o'])));
    assert_eq!(Word1::<5>::from_str("foo"), Err(IteratorIntoArrayError));
    assert_eq!(Word1::<5>::from_str("cr-te"), Err(IteratorIntoArrayError));
}

#[test]
fn family_word_round_trip() {
    for text in ["crate", "light", "value", "ёлочка"] {
        if text.chars().count() == 5 {
            assert_eq!(word::<5>(text).to_string(), text);
        } else {
            assert_eq!(word::<6>(text).to_string(), text);
        }
    }
}

#[test]
fn family_parse_pattern() {
    assert_eq!(
        Pattern1::from_str("gg..y"),
        Ok(Pattern1::new([Correct, Correct, Absent, Absent, Misplaced]))
    );
    assert_eq!(
        Pattern1::from_str("12x 2"),
        Ok(Pattern1::new([Correct, Misplaced, Absent, Absent, Misplaced]))
    );
    assert_eq!(Pattern1::<5>::from_str("gg.."), Err(IteratorIntoArrayError));
    assert_eq!(Pattern1::<5>::from_str("gg..yy"), Err(IteratorIntoArrayError));
    assert_eq!(pattern::<5>("1g.xy").to_string(), "gg..y");
}

#[test]
fn family_literal_scenarios() {
    assert_eq!(Pattern1::from_guess(&word::<5>("acbed"), &word("abcde")), pattern("gyyyy"));
    assert_eq!(Pattern1::from_guess(&word::<5>("slate"), &word("crate")), pattern("..ggg"));
    assert_eq!(Pattern1::from_guess(&word::<5>("thorp"), &word("shirt")), pattern("yg.g."));
    assert_eq!(Pattern1::from_guess(&word::<5>("fghij"), &word("abcde")), pattern("....."));
    assert_eq!(Pattern1::from_guess(&word::<5>("abced"), &word("abcde")), pattern("gggyy"));
    assert_eq!(Pattern1::from_guess(&word::<5>("brown"), &word("dicot")), pattern("..y.."));
}

#[test]
fn family_duplicate_letters() {
    // One `e` of the answer is unmatched, so one `e` of the guess is
    // misplaced and the other absent.
    assert_eq!(Pattern1::from_guess(&word::<5>("speed"), &word("abide")), pattern("..y.y"));
    assert_eq!(Pattern1::from_guess(&word::<5>("speed"), &word("erase")), pattern("y.yy."));
    assert_eq!(Pattern1::from_guess(&word::<6>("eraser"), &word("cheers")), pattern("yy.yy."));
    assert_eq!(Pattern1::from_guess(&word::<5>("eerie"), &word("abide")), pattern("...yg"));
    assert_eq!(Pattern1::from_guess(&word::<5>("geese"), &word("elder")), pattern(".yy.."));
}

#[test]
fn family_feedback_on_itself_is_all_correct() {
    for text in ["crate", "eerie", "aaaaa", "speed"] {
        let w = word::<5>(text);
        assert_eq!(Pattern1::from_guess(&w, &w), pattern("ggggg"));
    }
}

#[test]
fn family_answer_matches_its_own_feedback() {
    let words = ["crate", "slate", "eerie", "abide", "speed", "erase", "aback", "crane"];
    for g in words {
        for a in words {
            let guess = word::<5>(g);
            let answer = word::<5>(a);
            let p = Pattern1::from_guess(&guess, &answer);
            assert!(answer.matches(&p, &guess));
        }
    }
}

#[test]
fn family_matches_is_from_guess_compared() {
    let words = ["aab", "aba", "baa", "abb", "bab", "bba", "aaa", "bbb", "abc", "cab"];
    let marks = [Correct, Misplaced, Absent];
    for g in words {
        for c in words {
            for x in marks {
                for y in marks {
                    for z in marks {
                        let guess = word::<3>(g);
                        let candidate = word::<3>(c);
                        let p = Pattern1::new([x, y, z]);
                        assert_eq!(
                            candidate.matches(&p, &guess),
                            Pattern1::from_guess(&guess, &candidate) == p
                        );
                    }
                }
            }
        }
    }
}

#[test]
fn family_matches_names() {
    assert!(word::<3>("bra").matches(&pattern("gyy"), &word("bar")));
    assert!(word::<6>("github").matches(&pattern("g.y..."), &word("gluers")));
    assert!(!word::<3>("bar").matches(&pattern("gy."), &word("baz")));
    assert!(!word::<5>("aback").matches(&pattern("....y"), &word("crane")));
    assert!(word::<5>("crate").same(&word("crate")));
    assert!(!word::<5>("crate").same(&word("crane")));
    assert_eq!(word::<3>("bar").iter(), &['b', 'a', 'r']);
    assert_eq!(pattern::<3>("gy.").iter(), &[Correct, Misplaced, Absent]);
}

#[test]
fn compact_code_is_base_three() {
    assert_eq!(pattern::<5>("ggggg").as_u8(), 0);
    assert_eq!(pattern::<3>("gy.").as_u8(), 21);
    assert_eq!(pattern::<5>("y....").as_u8(), 1 + 2 * 3 + 2 * 9 + 2 * 27 + 2 * 81);
    assert_eq!(pattern::<5>(".....").as_u8(), 242);
    assert_eq!(pattern::<5>("....g").as_u8(), 80);
    assert_eq!(engine::encode(&[Misplaced, Correct]), 1);
    assert_eq!(engine::encode::<0>(&[]), 0);
}

#[test]
fn engine_on_arrays() {
    let p = engine::from_guess(&['s', 'p', 'e', 'e', 'd'], &['a', 'b', 'i', 'd', 'e']);
    assert_eq!(p, [Absent, Absent, Misplaced, Absent, Misplaced]);
    assert!(engine::matches(&['a', 'b', 'i', 'd', 'e'], &p, &['s', 'p', 'e', 'e', 'd']));
    assert!(!engine::matches(&['a', 'b', 'i', 'd', 'a'], &p, &['s', 'p', 'e', 'e', 'd']));
}
