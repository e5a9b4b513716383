use cmdle::word::{Dictionary, ValidationError};
use cmdle::get_daily_word;

fn daily_dict(words: &[&str]) -> Dictionary {
    Dictionary::new(words.iter().map(|s| s.to_string()).collect())
}

fn goal_list(words: &[&str]) -> Vec<String> {
    words.iter().map(|s| s.to_string()).collect()
}

#[test]
fn daily_word_cycles_through_the_goal_list() {
    let d = daily_dict(&["aback", "abase", "abate"]);
    let goals = goal_list(&["aback", "abase", "abate"]);
    assert_eq!(
        get_daily_word(0, &goals, &d).unwrap().as_string(),
        "aback"
    );
    assert_eq!(
        get_daily_word(1, &goals, &d).unwrap().as_string(),
        "abase"
    );
    assert_eq!(
        get_daily_word(2, &goals, &d).unwrap().as_string(),
        "abate"
    );
    assert_eq!(
        get_daily_word(7, &goals, &d).unwrap().as_string(),
        "abase"
    );
}

#[test]
fn daily_word_is_deterministic() {
    let d = daily_dict(&["aback", "abase", "abate"]);
    let goals = goal_list(&["aback", "abase", "abate"]);
    let first = get_daily_word(613, &goals, &d).unwrap();
    let second = get_daily_word(613, &goals, &d).unwrap();
    assert_eq!(first.as_string(), second.as_string());
}

#[test]
fn daily_word_fails_when_the_selected_goal_does_not_validate() {
    let d = daily_dict(&["aback"]);
    let goals = goal_list(&["aback", "abase"]);
    assert_eq!(
        get_daily_word(3, &goals, &d).unwrap_err(),
        ValidationError::NotInDictionary
    );
}
