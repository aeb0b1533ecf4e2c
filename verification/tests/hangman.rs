use hangman::hangman::{GuessOutcome, Hangman};
use hangman::utils::LowercaseAscii;

#[test]
fn hangman_hangman_new_simple_word_is_read_properly() {
    let word = "sup";
    let hangman = Hangman::new(word, 2).unwrap();
    let hangman_word = hangman.secret_word();

    assert_eq!(word, hangman_word);
}

#[test]
fn hangman_hangman_new_word_with_uppercase_is_translated_to_lowercase() {
    let word = "hellOwoM";
    let word_lowercase = "hellowom";
    let hangman = Hangman::new(word, 2).unwrap();
    let hangman_word = hangman.secret_word();

    assert_eq!(word_lowercase, hangman_word);
}

#[test]
fn hangman_new_with_digit_returns_error() {
    let word = "2";
    let hangman = Hangman::new(word, 2);

    assert_eq!(hangman.is_err(), true);
}

#[test]
fn hangman_new_strange_unicode_alphabetic_returns_error() {
    let word = "\u{201e}\u{c5}\u{ec}";
    let hangman = Hangman::new(word, 2);

    assert_eq!(hangman.is_err(), true);
}

#[test]
fn hangman_hangman_guess_correct_num_guesses_unchanged() {
    let word = "abc";
    let num_guesses = 2;
    let mut hangman = Hangman::new(word, num_guesses).unwrap();
    let guess = LowercaseAscii::try_from('a').unwrap();

    let guess_outcome = hangman.apply_guess(&guess);

    assert_eq!(hangman.num_guesses(), num_guesses);
    assert_eq!(guess_outcome, GuessOutcome::Hit);
}

#[test]
fn hangman_hangman_guess_incorrect_num_guesses_minus_1() {
    let word = "abc";
    let num_guesses = 2;
    let mut hangman = Hangman::new(word, num_guesses).unwrap();
    let guess = LowercaseAscii::try_from('d').unwrap();

    let guess_outcome = hangman.apply_guess(&guess);

    assert_eq!(hangman.num_guesses(), num_guesses - 1);
    assert_eq!(guess_outcome, GuessOutcome::Miss);
}

#[test]
fn hangman_guess_char_with_multiple_occurrences_all_are_noted() {
    let word = "aabc";
    let num_guesses = 2;
    let mut hangman = Hangman::new(word, num_guesses).unwrap();
    let guess = LowercaseAscii::try_from('a').unwrap();

    hangman.apply_guess(&guess);

    let expected_obfuscated_word = "aa**";
    assert_eq!(hangman.num_guesses(), num_guesses);
    assert_eq!(hangman.construct_obfuscated_word(), expected_obfuscated_word);
}

#[test]
fn hangman_apply_guess_already_tried_no_guess_used() {
    let word = "abc";
    let num_guesses = 2;
    let mut hangman = Hangman::new(word, num_guesses).unwrap();
    let guess = LowercaseAscii::try_from('a').unwrap();

    hangman.apply_guess(&guess);
    let guess_outcome = hangman.apply_guess(&guess);

    assert_eq!(hangman.num_guesses(), num_guesses);
    assert_eq!(guess_outcome, GuessOutcome::AlreadyGuessed);
}

#[test]
fn lib_hangman_new_simple_word_is_read_properly() {
    let word = "sup";
    let hangman = Hangman::new(word, 2).unwrap();
    let hangman_word = hangman.secret_word();

    assert_eq!(word, hangman_word);
}

#[test]
fn lib_hangman_new_word_with_uppercase_is_translated_to_lowercase() {
    let word = "hellOwoM";
    let word_lowercase = "hellowom";
    let hangman = Hangman::new(word, 2).unwrap();
    let hangman_word = hangman.secret_word();

    assert_eq!(word_lowercase, hangman_word);
}

#[test]
fn lib_hangman_guess_correct_num_guesses_unchanged() {
    let word = "abc";
    let num_guesses = 2;
    let mut hangman = Hangman::new(word, 2).unwrap();

    hangman.apply_guess(&LowercaseAscii::try_from('a').unwrap());

    assert_eq!(hangman.num_guesses(), num_guesses);
}

#[test]
fn lib_hangman_guess_incorrect_num_guesses_minus_1() {
    let word = "abc";
    let num_guesses = 2;
    let mut hangman = Hangman::new(word, 2).unwrap();

    hangman.apply_guess(&LowercaseAscii::try_from('d').unwrap());

    assert_eq!(hangman.num_guesses(), num_guesses - 1);
}

#[test]
fn hangman_construct_obfuscated_word() {
    let word = "abc";
    let mut hangman = Hangman::new(word, 2).unwrap();

    hangman.apply_guess(&LowercaseAscii::try_from('a').unwrap());
    hangman.apply_guess(&LowercaseAscii::try_from('c').unwrap());

    assert_eq!(hangman.construct_obfuscated_word(), "a*c");
}
