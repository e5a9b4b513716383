use cmdle::word::{is_valid_guess, Dictionary, ValidationError, Word};
use cmdle::LetterResult;

fn word_dict(words: &[&str]) -> Dictionary {
    Dictionary::new(words.iter().map(|s| s.to_string()).collect())
}

#[test]
fn make_guess() {
    let d = word_dict(&["shave", "hello"]);
    assert!(is_valid_guess("shave", &d));
}

#[test]
fn guess_not_in_dictionary() {
    let d = word_dict(&["shave"]);
    assert!(!is_valid_guess("zzzzz", &d));
}

#[test]
fn construct_round_trips_trimmed_text() {
    let d = word_dict(&["hello"]);
    let w = Word::from("  hello\n".to_string(), &d).unwrap();
    assert_eq!(w.as_string(), "hello");
    let w2 = Word::from("hello".to_string(), &d).unwrap();
    assert_eq!(w2.as_string(), "hello");
}

#[test]
fn construct_wrong_length() {
    let d = word_dict(&["hello"]);
    assert_eq!(
        Word::from("hell".to_string(), &d),
        Err(ValidationError::WrongLength)
    );
    assert_eq!(
        Word::from("helloo".to_string(), &d),
        Err(ValidationError::WrongLength)
    );
    assert_eq!(
        Word::from(String::new(), &d),
        Err(ValidationError::WrongLength)
    );
    assert_eq!(
        Word::from("   ".to_string(), &d),
        Err(ValidationError::WrongLength)
    );
}

#[test]
fn construct_not_ascii() {
    let d = word_dict(&["hello"]);
    assert_eq!(
        Word::from("h\u{e9}llo".to_string(), &d),
        Err(ValidationError::NotAscii)
    );
}

#[test]
fn construct_not_alphabetic() {
    let d = word_dict(&["hello"]);
    assert_eq!(
        Word::from("ab1de".to_string(), &d),
        Err(ValidationError::NotAlphabetic)
    );
    assert_eq!(
        Word::from("Hello".to_string(), &d),
        Err(ValidationError::NotAlphabetic)
    );
}

#[test]
fn construct_not_in_dictionary() {
    let d = word_dict(&["hello"]);
    assert_eq!(
        Word::from("world".to_string(), &d),
        Err(ValidationError::NotInDictionary)
    );
}

#[test]
fn get_returns_each_letter() {
    let d = word_dict(&["hello"]);
    let w = Word::from("hello".to_string(), &d).unwrap();
    assert_eq!(w.get(0), 'h');
    assert_eq!(w.get(1), 'e');
    assert_eq!(w.get(2), 'l');
    assert_eq!(w.get(3), 'l');
    assert_eq!(w.get(4), 'o');
}

#[test]
fn compare_equal_words_all_correct() {
    let d = word_dict(&["hello"]);
    let guess = Word::from("hello".to_string(), &d).unwrap();
    let goal = Word::from("hello".to_string(), &d).unwrap();
    assert_eq!(
        guess.comp(&goal),
        vec![LetterResult::Correct; 5]
    );
}

#[test]
fn compare_consumes_repeated_letters() {
    let d = word_dict(&["aabbb", "ababa"]);
    let guess = Word::from("aabbb".to_string(), &d).unwrap();
    let goal = Word::from("ababa".to_string(), &d).unwrap();
    assert_eq!(
        guess.comp(&goal),
        vec![
            LetterResult::Correct,
            LetterResult::WrongPosition,
            LetterResult::WrongPosition,
            LetterResult::Correct,
            LetterResult::WrongLetter,
        ]
    );
}

#[test]
fn compare_never_over_reports_matches() {
    let d = word_dict(&["sassy", "glass"]);
    let guess = Word::from("sassy".to_string(), &d).unwrap();
    let goal = Word::from("glass".to_string(), &d).unwrap();
    assert_eq!(
        guess.comp(&goal),
        vec![
            LetterResult::WrongPosition,
            LetterResult::WrongPosition,
            LetterResult::WrongPosition,
            LetterResult::WrongLetter,
            LetterResult::WrongLetter,
        ]
    );
}

#[test]
fn words_equal_by_text() {
    let d = word_dict(&["hello", "world"]);
    let a = Word::from("hello".to_string(), &d).unwrap();
    let b = Word::from(" hello ".to_string(), &d).unwrap();
    let c = Word::from("world".to_string(), &d).unwrap();
    assert!(a == b);
    assert!(a != c);
    assert_eq!(a.clone().as_string(), "hello");
}
