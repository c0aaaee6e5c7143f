use rustybovich::words::{Pattern, Word, WrapLetter};
use std::str::FromStr;

fn word_and_pattern<const N: usize>(
    word: &str,
    pattern_word: &str,
    colors: &str,
) -> (Word<N>, Word<N>, Pattern<N>) {
    (
        Word::from_str(word).unwrap(),
        Word::from_str(pattern_word).unwrap(),
        Pattern::from_description(pattern_word, colors).unwrap(),
    )
}

#[test]
fn words_test_parse_word() {
    assert_eq!(
        Word::from_str("crate"),
        Ok(Word::new(['c', 'r', 'a', 't', 'e']))
    );
    assert_eq!(
        Word::from_str("light"),
        Ok(Word::new(['l', 'i', 'g', 'h', 't']))
    );
    assert_eq!(
        Word::from_str("value"),
        Ok(Word::new(['v', 'a', 'l', 'u', 'e']))
    );
    assert_eq!(Word::<3>::from_str("foo"), Ok(Word::new(['f', 'o', 'o'])))
}

#[test]
fn words_test_pattern_from_description() {
    assert_eq!(
        Pattern::from_description("crate", "gg..y"),
        Ok(Pattern::new([
            'c'.green(),
            'r'.green(),
            'a'.gray(),
            't'.gray(),
            'e'.yellow(),
        ]))
    );

    assert_eq!(
        Pattern::from_description("moon", "yy.."),
        Ok(Pattern::new([
            'm'.yellow(),
            'o'.yellow(),
            'o'.gray(),
            'n'.gray(),
        ]))
    );

    assert_eq!(
        Pattern::from_description("maniac", "y...g."),
        Ok(Pattern::new([
            'm'.yellow(),
            'a'.gray(),
            'n'.gray(),
            'i'.gray(),
            'a'.green(),
            'c'.gray(),
        ]))
    );

    assert_eq!(
        Pattern::from_description("gluers", "g.y..."),
        Ok(Pattern::new([
            'g'.green(),
            'l'.gray(),
            'u'.yellow(),
            'e'.gray(),
            'r'.gray(),
            's'.gray(),
        ]))
    );

    assert_eq!(
        Pattern::from_description("bra", "gyy"),
        Ok(Pattern::new(['b'.green(), 'r'.yellow(), 'a'.yellow()]))
    );
}

#[test]
fn words_test_matches1() {
    let (word, _, pattern) = word_and_pattern::<3>("bar", "bra", "gyy");
    assert!(word.matches(&pattern));

    let (word, _, pattern) = word_and_pattern::<5>("crate", "slate", "..ggg");
    assert!(word.matches(&pattern));

    let (word, _, pattern) = word_and_pattern::<5>("abcde", "acbed", "gyyyy");
    assert!(word.matches(&pattern));

    let (word, _, pattern) = word_and_pattern::<6>("github", "gluers", "g.y...");
    assert!(word.matches(&pattern));
}

#[test]
fn words_test_not_matches1() {
    let (word, _, pattern) = word_and_pattern::<3>("bar", "baz", "gy.");
    assert!(!word.matches(&pattern));

    let (word, _, pattern) = word_and_pattern::<6>("github", "gluers", "g.y..g");
    assert!(!word.matches(&pattern));

    let (word, _, pattern) = word_and_pattern::<6>("github", "gluers", "ggy...");
    assert!(!word.matches(&pattern));

    let (word, _, pattern) = word_and_pattern::<6>("github", "gluers", "g.yy..");
    assert!(!word.matches(&pattern));
}

#[test]
fn words_test_pattern_from_guess_2() {
    let (answer, guess, pattern) = word_and_pattern::<5>("acbed", "abcde", "gyyyy");
    assert_eq!(Pattern::from_guess(&guess, &answer), pattern);

    let (answer, guess, pattern) = word_and_pattern::<5>("crate", "slate", "..ggg");
    assert_eq!(Pattern::from_guess(&guess, &answer), pattern);

    let (answer, guess, pattern) = word_and_pattern::<5>("dicot", "brown", "..y..");
    assert_eq!(Pattern::from_guess(&guess, &answer), pattern);

    let (answer, guess, pattern) = word_and_pattern::<5>("shirt", "thorp", "yg.g.");
    assert_eq!(Pattern::from_guess(&guess, &answer), pattern);

    let (answer, guess, pattern) = word_and_pattern::<5>("abcde", "fghij", ".....");
    assert_eq!(Pattern::from_guess(&guess, &answer), pattern);

    let (answer, guess, pattern) = word_and_pattern::<5>("abcde", "abcde", "ggggg");
    assert_eq!(Pattern::from_guess(&guess, &answer), pattern);

    let (answer, guess, pattern) = word_and_pattern::<5>("abcde", "abced", "gggyy");
    assert_eq!(Pattern::from_guess(&guess, &answer), pattern);
}

#[test]
fn from_guess2_agrees_with_from_guess() {
    let guess = Word::<5>::from_str("speed").unwrap();
    let answer = Word::<5>::from_str("abide").unwrap();
    assert_eq!(
        Pattern::from_guess2(&guess, &answer),
        Pattern::from_guess(&guess, &answer)
    );
    assert_eq!(
        Pattern::from_guess2(&guess, &answer),
        Pattern::from_description("speed", "..y.y").unwrap()
    );
}

#[test]
fn filter_words_keeps_matching_words_in_order() {
    let words: Vec<Word<5>> = ["crate", "slate", "grate", "plate", "irate"]
        .iter()
        .map(|w| Word::from_str(w).unwrap())
        .collect();
    let pattern = Pattern::<5>::from_description("slate", "..ggg").unwrap();
    let kept = pattern.filter_words(&words);
    let expected: Vec<Word<5>> = ["crate", "grate", "irate"]
        .iter()
        .map(|w| Word::from_str(w).unwrap())
        .collect();
    assert_eq!(kept, expected);
    assert!(pattern.match_word(&words[0]));
    assert!(!pattern.match_word(&words[1]));
}

#[test]
fn word_of_wrong_length_is_refused() {
    assert!(Word::<5>::from_str("foo").is_err());
    assert!(Word::<5>::from_str("toolong").is_err());
    assert!(Word::<5>::from_str("").is_err());
    assert!(Word::<0>::from_str("").is_ok());
}

#[test]
fn word_with_a_character_that_is_no_letter_is_refused() {
    assert!(Word::<5>::from_str("cr4te").is_err());
    assert!(Word::<5>::from_str("cra e").is_err());
    assert!(Word::<5>::from_str("слово").is_ok());
}

#[test]
fn description_of_wrong_length_is_refused() {
    assert!(Pattern::<5>::from_description("crate", "gg..").is_err());
    assert!(Pattern::<5>::from_description("crate", "gg..yy").is_err());
    assert!(Pattern::<5>::from_description("crat", "gg..y").is_err());
    assert!(Pattern::<5>::from_description("crate", "12..2").is_ok());
    assert_eq!(
        Pattern::<5>::from_description("crate", "11xx2"),
        Pattern::<5>::from_description("crate", "gg..y")
    );
}

#[test]
fn word_round_trip() {
    for text in ["crate", "light", "value", "слово"] {
        let word = Word::<5>::from_str(text).unwrap();
        assert_eq!(word.to_string(), text);
    }
}

#[test]
fn pattern_letters_are_in_reach() {
    let pattern = Pattern::<3>::from_description("bra", "gyy").unwrap();
    assert_eq!(pattern.iter()[0], 'b'.green());
    assert_eq!(pattern.iter()[2], 'a'.yellow());
    let word = Word::<3>::from_str("bra").unwrap();
    assert_eq!(word.iter(), &['b', 'r', 'a']);
}
