use rustybovich::words::words_2::{Pattern2, Word2};
use rustybovich::words::LetterType::{Gray, Green, Yellow};
use std::str::FromStr;

fn is_matching_str<const N: usize>(pattern: &str, guess: &str, answer: &str) -> bool {
    let pattern: Pattern2<N> = pattern.parse().unwrap();
    let guess: Word2<N> = guess.parse().unwrap();
    let answer: Word2<N> = answer.parse().unwrap();
    answer.matches(&pattern, &guess)
}

fn pattern_str<const N: usize>(guess: &str, answer: &str) -> Pattern2<N> {
    Pattern2::from_guess(&guess.parse().unwrap(), &answer.parse().unwrap())
}

#[test]
fn words_2_test_parse_word() {
    assert_eq!(
        Word2::from_str("crate"),
        Ok(Word2::new(['c', 'r', 'a', 't', 'e']))
    );
    assert_eq!(
        Word2::from_str("light"),
        Ok(Word2::new(['l', 'i', 'g', 'h', 't']))
    );
    assert_eq!(
        Word2::from_str("value"),
        Ok(Word2::new(['v', 'a', 'l', 'u', 'e']))
    );
    assert_eq!(Word2::<3>::from_str("foo"), Ok(Word2::new(['f', 'o', 'o'])))
}

#[test]
fn words_2_test_pattern_from_description() {
    assert_eq!(
        Pattern2::from_str("gg..y"),
        Ok(Pattern2::new([Green, Green, Gray, Gray, Yellow]))
    );

    assert_eq!(
        Pattern2::from_str("..yy"),
        Ok(Pattern2::new([Gray, Gray, Yellow, Yellow]))
    );

    assert_eq!(
        Pattern2::from_str("y...g."),
        Ok(Pattern2::new([Yellow, Gray, Gray, Gray, Green, Gray]))
    );

    assert_eq!(
        Pattern2::from_str("g.y..."),
        Ok(Pattern2::new([Green, Gray, Yellow, Gray, Gray, Gray]))
    );

    assert_eq!(
        Pattern2::from_str("gyy"),
        Ok(Pattern2::new([Green, Yellow, Yellow]))
    );
}

#[test]
fn words_2_test_matches1() {
    assert!(is_matching_str::<3>("gyy", "bar", "bra"));
    assert!(is_matching_str::<5>("..ggg", "slate", "crate"));
    assert!(is_matching_str::<5>("gyyyy", "acbed", "abcde"));
    assert!(is_matching_str::<6>("g.y...", "gluers", "github"));
}

#[test]
fn words_2_test_not_matches1() {
    assert!(!is_matching_str::<3>("gy.", "baz", "bar"));
    assert!(!is_matching_str::<5>("....y", "crane", "aback"));
    assert!(!is_matching_str::<6>("g.y..g", "gluers", "github"));
    assert!(!is_matching_str::<6>("ggy...", "gluers", "github"));
    assert!(!is_matching_str::<6>("g.yy..", "gluers", "github"));
}

#[test]
fn words_2_test_pattern_from_guess_2() {
    assert_eq!(
        Pattern2::from_str("gyyyy").unwrap(),
        pattern_str::<5>("acbed", "abcde")
    );
    assert_eq!(
        Pattern2::from_str("..ggg").unwrap(),
        pattern_str::<5>("slate", "crate")
    );

    assert_eq!(
        Pattern2::from_str("..y..").unwrap(),
        pattern_str::<5>("brown", "dicot")
    );

    assert_eq!(
        Pattern2::from_str("yg.g.").unwrap(),
        pattern_str::<5>("thorp", "shirt")
    );

    assert_eq!(
        Pattern2::from_str(".....").unwrap(),
        pattern_str::<5>("fghij", "abcde")
    );

    assert_eq!(
        Pattern2::from_str("ggggg").unwrap(),
        pattern_str::<5>("abcde", "abcde")
    );

    assert_eq!(
        Pattern2::from_str("gggyy").unwrap(),
        pattern_str::<5>("abcde", "abced")
    );
}

#[test]
fn words_2_filter_words() {
    let words: Vec<Word2<3>> = ["bar", "bra", "baz"]
        .iter()
        .map(|w| Word2::from_str(w).unwrap())
        .collect();
    let pattern = Pattern2::<3>::from_str("gyy").unwrap();
    assert_eq!(pattern.filter_words(&words[0], &words), vec![words[1]]);
    assert_eq!(pattern.iter(), &[Green, Yellow, Yellow]);
    assert_eq!(words[2].to_string(), "baz");
    assert_eq!(words[2].iter(), &['b', 'a', 'z']);
}

#[test]
fn words_2_shape_errors() {
    assert!(Word2::<5>::from_str("foo").is_err());
    assert!(Pattern2::<5>::from_str("gg..").is_err());
    assert!(Pattern2::<5>::from_str("gg..yy").is_err());
}

#[test]
fn matches_rejects_a_candidate_with_an_exact_match_under_a_yellow_mark() {
    // "qaaq" gives "aazz" a green second letter, so it cannot be the answer
    // behind two yellow marks.
    assert_eq!(
        Pattern2::from_str("yy..").unwrap(),
        pattern_str::<4>("aazz", "qqaa")
    );
    assert!(is_matching_str::<4>("yy..", "aazz", "qqaa"));
    assert!(!is_matching_str::<4>("yy..", "aazz", "qaaq"));
    assert_eq!(
        Pattern2::from_str("yg..").unwrap(),
        pattern_str::<4>("aazz", "qaaq")
    );
}
