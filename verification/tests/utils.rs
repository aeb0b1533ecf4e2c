use hangman::utils::{first_token, LowercaseAscii};

#[test]
fn lowercase_ascii_a_is_accepted() {
    let result = LowercaseAscii::try_from('a');
    assert_eq!(result.is_ok(), true);
}

#[test]
fn lowercase_ascii_bracket_is_not_accepted() {
    let result = LowercaseAscii::try_from('[');
    assert_eq!(result.is_err(), true);
}

#[test]
fn lowercase_ascii_strange_unicode_is_not_accepted() {
    let result = LowercaseAscii::try_from('\u{3053}');
    assert_eq!(result.is_err(), true);
}

#[test]
fn lowercase_ascii_uppercase_a_is_lowercased_and_accepted() {
    let result = LowercaseAscii::try_from('A');
    assert_eq!(result.is_ok(), true);
}

#[test]
fn lowercase_ascii_uppercase_and_lowercase_give_the_same_value() {
    let upper = LowercaseAscii::try_from('A').unwrap();
    let lower = LowercaseAscii::try_from('a').unwrap();
    assert_eq!(upper.get_value(), 'a');
    assert_eq!(lower.get_value(), 'a');
}

#[test]
fn lowercase_ascii_error_carries_the_offending_character() {
    let err = LowercaseAscii::try_from('7').unwrap_err();
    assert_eq!(err.offending, '7');
}

#[test]
fn first_token_takes_first_whitespace_delimited_word() {
    let contents: Vec<u8> = b"  hello world\n".to_vec();
    let token = first_token(&contents).unwrap();
    assert_eq!(token, b"hello".to_vec());
}

#[test]
fn first_token_of_whole_word_is_the_word() {
    let contents: Vec<u8> = b"secret".to_vec();
    let token = first_token(&contents).unwrap();
    assert_eq!(token, b"secret".to_vec());
}

#[test]
fn first_token_of_blank_text_is_none() {
    let contents: Vec<u8> = b" \t\r\n ".to_vec();
    assert!(first_token(&contents).is_none());

    let empty: Vec<u8> = Vec::new();
    assert!(first_token(&empty).is_none());
}
