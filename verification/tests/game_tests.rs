use cmdle::game::{Game, GameError, GameRecord, PersistenceError};
use cmdle::word::{Dictionary, Word};
use cmdle::{LetterResult, LetterStatus};

fn game_dict(words: &[&str]) -> Dictionary {
    Dictionary::new(words.iter().map(|s| s.to_string()).collect())
}

fn word(text: &str, d: &Dictionary) -> Word {
    Word::from(text.to_string(), d).unwrap()
}

fn guess_texts(game: &Game) -> Vec<String> {
    game.get_guess_iterator().iter().map(|w| w.as_string().clone()).collect()
}

#[test]
fn game_to_json() {
    let d = game_dict(&["hello", "there", "carts", "fears"]);
    let mut game = Game::new(word("hello", &d));
    game.add_guess(word("there", &d)).unwrap();
    game.add_guess(word("carts", &d)).unwrap();
    game.add_guess(word("fears", &d)).unwrap();

    let rec = game.to_record();
    assert_eq!(rec.goal, "hello");
    assert_eq!(
        rec.guesses,
        vec!["there".to_string(), "carts".to_string(), "fears".to_string()]
    );
}

#[test]
fn json_to_game() {
    let d = game_dict(&["hello", "there", "carts", "fears"]);
    let rec = GameRecord {
        goal: "hello".to_string(),
        guesses: vec!["there".to_string(), "carts".to_string(), "fears".to_string()],
    };

    let game = Game::from_record(&rec, &d).unwrap();
    assert_eq!(game.get_goal().as_string(), "hello");
    assert_eq!(
        guess_texts(&game),
        vec!["there".to_string(), "carts".to_string(), "fears".to_string()]
    );
}

#[test]
fn record_drops_entries_that_do_not_validate() {
    let d = game_dict(&["hello", "there", "carts"]);
    let rec = GameRecord {
        goal: " hello ".to_string(),
        guesses: vec![
            "there".to_string(),
            "xx".to_string(),
            "fears".to_string(),
            " carts ".to_string(),
        ],
    };

    let game = Game::from_record(&rec, &d).unwrap();
    assert_eq!(game.get_goal().as_string(), "hello");
    assert_eq!(guess_texts(&game), vec!["there".to_string(), "carts".to_string()]);
}

#[test]
fn record_with_invalid_goal_is_corrupt() {
    let d = game_dict(&["there"]);
    let rec = GameRecord {
        goal: "hello".to_string(),
        guesses: vec!["there".to_string()],
    };
    assert_eq!(Game::from_record(&rec, &d).unwrap_err(), PersistenceError::Corrupt);
}

#[test]
fn record_with_too_many_guesses_is_corrupt() {
    let d = game_dict(&["hello", "there"]);
    let rec = GameRecord {
        goal: "hello".to_string(),
        guesses: vec!["there".to_string(); 7],
    };
    assert_eq!(Game::from_record(&rec, &d).unwrap_err(), PersistenceError::Corrupt);
}

#[test]
fn won_iff_last_guess_equals_goal() {
    let d = game_dict(&["hello", "there"]);
    let mut game = Game::new(word("hello", &d));
    assert!(!game.is_won());
    game.add_guess(word("there", &d)).unwrap();
    assert!(!game.is_won());
    game.add_guess(word("hello", &d)).unwrap();
    assert!(game.is_won());
    assert!(!game.is_lost());
    assert_eq!(game.guess_num(), 2);
}

#[test]
fn won_game_accepts_no_further_guess() {
    let d = game_dict(&["hello", "there"]);
    let mut game = Game::new(word("hello", &d));
    game.add_guess(word("hello", &d)).unwrap();
    assert!(game.is_won());
    assert!(!game.is_full());
    assert_eq!(game.add_guess(word("there", &d)), Err(GameError::GameFull));
    assert_eq!(game.guess_num(), 1);
}

#[test]
fn six_misses_lose_and_a_seventh_guess_fails() {
    let d = game_dict(&["hello", "there"]);
    let mut game = Game::new(word("hello", &d));
    for n in 1..=6usize {
        assert!(!game.is_full());
        assert!(!game.is_lost());
        game.add_guess(word("there", &d)).unwrap();
        assert_eq!(game.guess_num(), n);
    }
    assert!(game.is_full());
    assert!(game.is_lost());
    assert!(!game.is_won());
    assert_eq!(game.add_guess(word("there", &d)), Err(GameError::GameFull));
    assert_eq!(game.guess_num(), 6);
}

#[test]
fn compare_to_goal_matches_word_comparison() {
    let d = game_dict(&["hello", "world"]);
    let game = Game::new(word("hello", &d));
    let guess = word("world", &d);
    assert_eq!(
        game.compare_to_goal(&guess),
        vec![
            LetterResult::WrongLetter,
            LetterResult::WrongPosition,
            LetterResult::WrongLetter,
            LetterResult::Correct,
            LetterResult::WrongLetter,
        ]
    );
}

#[test]
fn letter_list_aggregates_statuses() {
    let d = game_dict(&["hello", "world"]);
    let mut game = Game::new(word("hello", &d));
    game.add_guess(word("world", &d)).unwrap();
    let board = game.letter_list();
    assert_eq!(board.len(), 26);
    let at = |c: char| board[(c as u32 - 97) as usize];
    assert_eq!(at('w'), LetterStatus::NotPresent);
    assert_eq!(at('o'), LetterStatus::FoundLetter);
    assert_eq!(at('r'), LetterStatus::NotPresent);
    assert_eq!(at('l'), LetterStatus::FoundPosition);
    assert_eq!(at('d'), LetterStatus::NotPresent);
    assert_eq!(at('a'), LetterStatus::Unused);
    assert_eq!(at('h'), LetterStatus::Unused);
}

#[test]
fn letter_list_computed_twice_is_identical() {
    let d = game_dict(&["ababa", "aabbb", "hello"]);
    let mut game = Game::new(word("ababa", &d));
    game.add_guess(word("aabbb", &d)).unwrap();
    game.add_guess(word("hello", &d)).unwrap();
    let first = game.letter_list();
    let second = game.letter_list();
    assert_eq!(first, second);
}

#[test]
fn found_position_survives_later_wrong_letter() {
    let d = game_dict(&["abcde", "axxxx", "xaaxx"]);
    let mut game = Game::new(word("abcde", &d));
    game.add_guess(word("axxxx", &d)).unwrap();
    let board = game.letter_list();
    assert_eq!(board[0], LetterStatus::FoundPosition);
    // The second guess holds 'a' twice: once answered WrongPosition, once
    // WrongLetter (the goal's single 'a' is consumed). Neither may downgrade
    // the letter's status.
    game.add_guess(word("xaaxx", &d)).unwrap();
    let board = game.letter_list();
    assert_eq!(board[0], LetterStatus::FoundPosition);
}
