use rustybovich::words::words_1::{Pattern1, Word1};
use rustybovich::words::WrapLetter;
use std::str::FromStr;

fn is_matching_str<const N: usize>(pattern: &str, guess: &str, answer: &str) -> bool {
    let pattern = Pattern1::<N>::from_description(pattern, guess).unwrap();
    let answer: Word1<N> = answer.parse().unwrap();
    answer.matches(&pattern)
}

fn pattern_str<const N: usize>(guess: &str, answer: &str) -> Pattern1<N> {
    Pattern1::from_guess(&guess.parse().unwrap(), &answer.parse().unwrap())
}

#[test]
fn words_1_test_parse_word() {
    assert_eq!(
        Word1::from_str("crate"),
        Ok(Word1::new(['c', 'r', 'a', 't', 'e']))
    );
    assert_eq!(
        Word1::from_str("light"),
        Ok(Word1::new(['l', 'i', 'g', 'h', 't']))
    );
    assert_eq!(
        Word1::from_str("value"),
        Ok(Word1::new(['v', 'a', 'l', 'u', 'e']))
    );
    assert_eq!(Word1::<3>::from_str("foo"), Ok(Word1::new(['f', 'o', 'o'])))
}

#[test]
fn words_1_test_pattern_from_description() {
    assert_eq!(
        Pattern1::from_description("gg..y", "crate"),
        Ok(Pattern1::new([
            'c'.green(),
            'r'.green(),
            'a'.gray(),
            't'.gray(),
            'e'.yellow(),
        ]))
    );

    assert_eq!(
        Pattern1::from_description("yy..", "moon"),
        Ok(Pattern1::new([
            'm'.yellow(),
            'o'.yellow(),
            'o'.gray(),
            'n'.gray(),
        ]))
    );

    assert_eq!(
        Pattern1::from_description("y...g.", "maniac"),
        Ok(Pattern1::new([
            'm'.yellow(),
            'a'.gray(),
            'n'.gray(),
            'i'.gray(),
            'a'.green(),
            'c'.gray(),
        ]))
    );

    assert_eq!(
        Pattern1::from_description("g.y...", "gluers"),
        Ok(Pattern1::new([
            'g'.green(),
            'l'.gray(),
            'u'.yellow(),
            'e'.gray(),
            'r'.gray(),
            's'.gray(),
        ]))
    );

    assert_eq!(
        Pattern1::from_description("gyy", "bra"),
        Ok(Pattern1::new(['b'.green(), 'r'.yellow(), 'a'.yellow()]))
    );
}

#[test]
fn words_1_test_matches1() {
    assert!(is_matching_str::<3>("gyy", "bar", "bra"));
    assert!(is_matching_str::<5>("..ggg", "slate", "crate"));
    assert!(is_matching_str::<5>("gyyyy", "acbed", "abcde"));
    assert!(is_matching_str::<6>("g.y...", "gluers", "github"));
}

#[test]
fn words_1_test_not_matches1() {
    assert!(!is_matching_str::<3>("gy.", "baz", "bar"));
    assert!(!is_matching_str::<5>("....y", "crane", "aback"));
    assert!(!is_matching_str::<6>("g.y..g", "gluers", "github"));
    assert!(!is_matching_str::<6>("ggy...", "gluers", "github"));
    assert!(!is_matching_str::<6>("g.yy..", "gluers", "github"));
}

#[test]
fn test_pattern_from_guess_1() {
    assert_eq!(
        Pattern1::from_description("gyyyy", "acbed").unwrap(),
        pattern_str::<5>("acbed", "abcde")
    );

    assert_eq!(
        Pattern1::from_description("..ggg", "slate").unwrap(),
        pattern_str::<5>("slate", "crate")
    );

    assert_eq!(
        Pattern1::from_description("..y..", "brown").unwrap(),
        pattern_str::<5>("brown", "dicot")
    );

    assert_eq!(
        Pattern1::from_description("yg.g.", "thorp").unwrap(),
        pattern_str::<5>("thorp", "shirt")
    );

    assert_eq!(
        Pattern1::from_description(".....", "fghij").unwrap(),
        pattern_str::<5>("fghij", "abcde")
    );

    assert_eq!(
        Pattern1::from_description("ggggg", "abcde").unwrap(),
        pattern_str::<5>("abcde", "abcde")
    );

    assert_eq!(
        Pattern1::from_description("gggyy", "abcde").unwrap(),
        pattern_str::<5>("abcde", "abced")
    );
}

#[test]
fn words_1_filter_words() {
    let words: Vec<Word1<3>> = ["bar", "bra", "baz"]
        .iter()
        .map(|w| Word1::from_str(w).unwrap())
        .collect();
    let pattern = Pattern1::<3>::from_description("gyy", "bar").unwrap();
    assert_eq!(pattern.filter_words(&words), vec![words[1]]);
    assert_eq!(pattern.iter()[1], 'a'.yellow());
    assert_eq!(words[0].to_string(), "bar");
    assert_eq!(words[0].iter(), &['b', 'a', 'r']);
}

#[test]
fn words_1_shape_errors() {
    assert!(Word1::<5>::from_str("foo").is_err());
    assert!(Pattern1::<5>::from_description("gg..", "crate").is_err());
    assert!(Pattern1::<5>::from_description("gg..y", "crat").is_err());
}

#[test]
fn words_1_prepare_all() {
    let guesses: Vec<Word1<3>> = ["abc", "xyz"]
        .iter()
        .map(|w| Word1::from_str(w).unwrap())
        .collect();
    let answers: Vec<Word1<3>> = ["abd", "abe", "xyz"]
        .iter()
        .map(|w| Word1::from_str(w).unwrap())
        .collect();
    let cache = Pattern1::prepare_all(&guesses, &answers);
    assert_eq!(cache.patterns.len(), 6);
    assert_eq!(cache.guesses, guesses);
    assert_eq!(cache.answers, answers);
    for (g, guess) in guesses.iter().enumerate() {
        for (a, answer) in answers.iter().enumerate() {
            assert_eq!(cache.get(g, a), Pattern1::from_guess(guess, answer));
            assert_eq!(cache.patterns[g * 3 + a], Pattern1::from_guess(guess, answer));
        }
    }
    assert_eq!(
        cache.get(0, 0),
        Pattern1::from_description("gg.", "abc").unwrap()
    );
    assert!(Pattern1::<3>::prepare_all(&[], &answers).patterns.is_empty());
}
