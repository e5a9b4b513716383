//! A command-line word-guessing game library: a hidden five-letter goal word,
//! up to six validated guesses, per-letter feedback that handles repeated
//! letters, and an aggregated per-letter status board.

use vstd::prelude::*;

pub mod config;
pub mod game;
pub mod word;

pub use game::Game;
pub use word::Word;

use word::{from_outcome, Dictionary, ValidationError};

verus! {

/// Feedback for one letter at one position of one guess, relative to a goal.
#[derive(Clone, Copy, Debug, PartialEq, Eq, Structural)]
pub enum LetterResult {
    Correct,
    WrongPosition,
    WrongLetter,
}

/// Aggregated knowledge about one letter of the alphabet across all guesses
/// made so far in a game. Upgrade order: `Unused` below `NotPresent` and
/// `FoundLetter`, with `FoundPosition` on top; once a letter reaches
/// `FoundPosition` it is never downgraded.
#[derive(Clone, Copy, Debug, PartialEq, Eq, Structural)]
pub enum LetterStatus {
    FoundLetter,
    FoundPosition,
    NotPresent,
    Unused,
}

/// Whether `c` is one of the 26 lowercase ASCII letters.
pub open spec fn is_lower_alpha(c: char) -> bool {
    97 <= c as u32 <= 122
}

/// The position of a lowercase letter in the alphabet, in `0..26`.
pub open spec fn letter_index(c: char) -> int {
    c as u32 - 97
}

/// The lowercase letter standing at position `li` of the alphabet.
pub open spec fn letter_of(li: int) -> char {
    ((li + 97) as u8) as char
}

/// The letter positions `0..26` stand exactly for the letters `'a'..='z'`.
pub proof fn lemma_letter_of_val(x: int)
    requires
        0 <= x < 26,
    ensures
        letter_of(x) as u32 == x + 97,
        is_lower_alpha(letter_of(x)),
        letter_index(letter_of(x)) == x,
{
}

/// The goal for a given day: entry `days_since_epoch mod goals.len()` of the
/// externally loaded, ordered goal list, validated against the guess
/// dictionary. `days_since_epoch` counts the calendar days from the game's
/// fixed epoch date to the day in question; turning today's date into that
/// count is the caller's business.
pub fn get_daily_word(days_since_epoch: usize, goals: &Vec<String>, dict: &Dictionary) -> (r:
    Result<Word, ValidationError>)
    requires
        goals@.len() > 0,
    ensures
        from_outcome(
            goals@[(days_since_epoch as int) % (goals@.len() as int)]@,
            dict@,
            r,
        ),
{
    let idx = days_since_epoch % goals.len();
    Word::from(goals[idx].clone(), dict)
}

/// Daily goal selection is deterministic: from the same day count, goal list
/// and dictionary, any two selections agree — same success or failure, same
/// word, same error.
pub proof fn lemma_daily_word_deterministic(
    raw: Seq<char>,
    dict: Seq<Seq<char>>,
    r1: Result<Word, ValidationError>,
    r2: Result<Word, ValidationError>,
)
    requires
        from_outcome(raw, dict, r1),
        from_outcome(raw, dict, r2),
    ensures
        r1 is Ok <==> r2 is Ok,
        r1 is Ok ==> r1->Ok_0@ == r2->Ok_0@,
        r1 is Err ==> r1->Err_0 == r2->Err_0,
{
}

} // verus!
