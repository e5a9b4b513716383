//! One game: a goal word, the ordered guesses made so far (at most six),
//! the derived win/loss state, the aggregated per-letter status board, and
//! the flat snapshot record the game is persisted as.

use vstd::prelude::*;
use crate::word::{compare_spec, trim_spec, valid_word, Dictionary, Word};
use crate::{lemma_letter_of_val, letter_of, LetterResult, LetterStatus};

verus! {

/// The number of guesses a game accepts before it is full.
pub const MAX_GUESSES: usize = 6;

/// A guess was submitted to a game that accepts no more guesses: the game is
/// already won, or six guesses are already in.
#[derive(Clone, Copy, Debug, PartialEq, Eq, Structural)]
pub enum GameError {
    GameFull,
}

/// Why a persisted snapshot did not produce a value: the store has no
/// snapshot, the snapshot does not describe a valid value, or the store
/// itself failed.
#[derive(Clone, Copy, Debug, PartialEq, Eq, Structural)]
pub enum PersistenceError {
    NotFound,
    Corrupt,
    IoFailure,
}

/// The mathematical content of a game: the goal's characters and the
/// characters of each guess, in the order the guesses were made.
pub ghost struct GameView {
    pub goal: Seq<char>,
    pub guesses: Seq<Seq<char>>,
}

/// A game is won iff its most recent guess equals the goal.
pub open spec fn game_won(v: GameView) -> bool {
    v.guesses.len() > 0 && v.guesses.last() == v.goal
}

/// A game is full when the maximum number of guesses is in.
pub open spec fn game_full(v: GameView) -> bool {
    v.guesses.len() >= MAX_GUESSES
}

/// A game is lost when it is full and not won.
pub open spec fn game_lost(v: GameView) -> bool {
    game_full(v) && !game_won(v)
}

/// `v` with one more guess appended.
pub open spec fn with_guess(v: GameView, w: Seq<char>) -> GameView {
    GameView { goal: v.goal, guesses: v.guesses.push(w) }
}

/// Whether letter `c` occurs, with feedback `res`, at some position of some
/// guess strictly before guess `kk` — or at a position below `ii` of guess
/// `kk` itself.
pub open spec fn appears_upto(v: GameView, kk: int, ii: int, c: char, res: LetterResult) -> bool {
    exists|k: int, i: int|
        0 <= k < v.guesses.len() && 0 <= i < 5 && (k < kk || (k == kk && i < ii))
            && v.guesses[k][i] == c && compare_spec(v.guesses[k], v.goal)[i] == res
}

/// Whether letter `c` occurs with feedback `res` anywhere in the game.
pub open spec fn appears_with(v: GameView, c: char, res: LetterResult) -> bool {
    appears_upto(v, v.guesses.len() as int, 0, c, res)
}

/// The aggregated status of letter `c` over the region of the game before
/// guess `kk`, position `ii`: `FoundPosition` if some occurrence was
/// `Correct`, else `FoundLetter` if some was `WrongPosition`, else
/// `NotPresent` if some was `WrongLetter`, else `Unused`.
pub open spec fn status_upto(v: GameView, kk: int, ii: int, c: char) -> LetterStatus {
    if appears_upto(v, kk, ii, c, LetterResult::Correct) {
        LetterStatus::FoundPosition
    } else if appears_upto(v, kk, ii, c, LetterResult::WrongPosition) {
        LetterStatus::FoundLetter
    } else if appears_upto(v, kk, ii, c, LetterResult::WrongLetter) {
        LetterStatus::NotPresent
    } else {
        LetterStatus::Unused
    }
}

/// The aggregated status of letter `c` over all guesses of the game.
/// `FoundPosition` takes precedence and is sticky: a letter fully consumed
/// elsewhere in a later guess, and hence answered `WrongLetter` there, never
/// erases an earlier `Correct`.
pub open spec fn board_status(v: GameView, c: char) -> LetterStatus {
    status_upto(v, v.guesses.len() as int, 0, c)
}

proof fn lemma_appears_step(v: GameView, k: int, i: int, c: char, res: LetterResult)
    requires
        0 <= k < v.guesses.len(),
        0 <= i < 5,
    ensures
        appears_upto(v, k, i + 1, c, res) == (appears_upto(v, k, i, c, res) || (v.guesses[k][i]
            == c && compare_spec(v.guesses[k], v.goal)[i] == res)),
{
    if appears_upto(v, k, i + 1, c, res) {
        let (k2, i2) = choose|k2: int, i2: int|
            0 <= k2 < v.guesses.len() && 0 <= i2 < 5 && (k2 < k || (k2 == k && i2 < i + 1))
                && v.guesses[k2][i2] == c && compare_spec(v.guesses[k2], v.goal)[i2] == res;
        if k2 == k && i2 == i {
            assert(v.guesses[k][i] == c && compare_spec(v.guesses[k], v.goal)[i] == res);
        } else {
            assert(appears_upto(v, k, i, c, res));
        }
    }
    if appears_upto(v, k, i, c, res) {
        let (k2, i2) = choose|k2: int, i2: int|
            0 <= k2 < v.guesses.len() && 0 <= i2 < 5 && (k2 < k || (k2 == k && i2 < i))
                && v.guesses[k2][i2] == c && compare_spec(v.guesses[k2], v.goal)[i2] == res;
        assert((k2 < k || (k2 == k && i2 < i + 1)));
        assert(appears_upto(v, k, i + 1, c, res));
    }
    if v.guesses[k][i] == c && compare_spec(v.guesses[k], v.goal)[i] == res {
        assert((k < k || (k == k && i < i + 1)));
        assert(appears_upto(v, k, i + 1, c, res));
    }
}

proof fn lemma_appears_next_row(v: GameView, k: int, c: char, res: LetterResult)
    requires
        0 <= k,
    ensures
        appears_upto(v, k, 5, c, res) == appears_upto(v, k + 1, 0, c, res),
{
    if appears_upto(v, k, 5, c, res) {
        let (k2, i2) = choose|k2: int, i2: int|
            0 <= k2 < v.guesses.len() && 0 <= i2 < 5 && (k2 < k || (k2 == k && i2 < 5))
                && v.guesses[k2][i2] == c && compare_spec(v.guesses[k2], v.goal)[i2] == res;
        assert((k2 < k + 1 || (k2 == k + 1 && i2 < 0)));
        assert(appears_upto(v, k + 1, 0, c, res));
    }
    if appears_upto(v, k + 1, 0, c, res) {
        let (k2, i2) = choose|k2: int, i2: int|
            0 <= k2 < v.guesses.len() && 0 <= i2 < 5 && (k2 < k + 1 || (k2 == k + 1 && i2 < 0))
                && v.guesses[k2][i2] == c && compare_spec(v.guesses[k2], v.goal)[i2] == res;
        assert((k2 < k || (k2 == k && i2 < 5)));
        assert(appears_upto(v, k, 5, c, res));
    }
}

/// A game in progress: the goal and the guesses made so far, in order.
#[derive(Debug)]
pub struct Game {
    goal: Word,
    guesses: Vec<Word>,
}

impl View for Game {
    type V = GameView;

    closed spec fn view(&self) -> GameView {
        GameView { goal: self.goal@, guesses: self.guesses.deep_view() }
    }
}

impl Game {
    /// Holds of every game ever constructed; recover it with
    /// `use_type_invariant`.
    #[verifier::type_invariant]
    pub open spec fn inv(self) -> bool {
        self@.guesses.len() <= MAX_GUESSES
    }

    /// A fresh game with goal `word` and an empty guess history.
    pub fn new(word: Word) -> (g: Game)
        ensures
            g@.goal == word@,
            g@.guesses.len() == 0,
    {
        Game { goal: word, guesses: Vec::new() }
    }

    /// How many guesses have been made.
    pub fn guess_num(&self) -> (n: usize)
        ensures
            n == self@.guesses.len(),
    {
        self.guesses.len()
    }

    /// A copy of the goal word.
    pub fn get_goal(&self) -> (w: Word)
        ensures
            w@ == self@.goal,
    {
        self.goal.clone()
    }

    /// The game is won iff the most recently added guess equals the goal.
    pub fn is_won(&self) -> (b: bool)
        ensures
            b == game_won(self@),
    {
        let n = self.guesses.len();
        if n == 0 {
            return false;
        }
        self.guesses[n - 1] == self.goal
    }

    /// The game is full once six guesses are in.
    pub fn is_full(&self) -> (b: bool)
        ensures
            b == game_full(self@),
    {
        self.guesses.len() >= MAX_GUESSES
    }

    /// The game is lost iff it is full and not won.
    pub fn is_lost(&self) -> (b: bool)
        ensures
            b == game_lost(self@),
    {
        self.is_full() && !self.is_won()
    }

    /// Appends one validated guess. Fails with `GameFull`, leaving the game
    /// unchanged, iff the game is already won or already holds six guesses.
    pub fn add_guess(&mut self, guess: Word) -> (r: Result<(), GameError>)
        ensures
            match r {
                Ok(_) => !game_won(old(self)@) && !game_full(old(self)@) && final(self)@.goal
                    == old(self)@.goal && final(self)@.guesses == old(self)@.guesses.push(guess@),
                Err(e) => e == GameError::GameFull && (game_won(old(self)@) || game_full(
                    old(self)@,
                )) && final(self)@ == old(self)@,
            },
    {
        proof {
            use_type_invariant(&*self);
        }
        if self.is_full() || self.is_won() {
            return Err(GameError::GameFull);
        }
        let mut taken: Vec<Word> = Vec::new();
        core::mem::swap(&mut taken, &mut self.guesses);
        taken.push(guess);
        self.guesses = taken;
        proof {
            assert(self@.guesses =~= old(self)@.guesses.push(guess@));
        }
        Ok(())
    }

    /// The guesses made so far, in order.
    pub fn get_guess_iterator(&self) -> (r: &Vec<Word>)
        ensures
            r.deep_view() == self@.guesses,
    {
        &self.guesses
    }

    /// The feedback for `guess` against this game's goal.
    pub fn compare_to_goal(&self, guess: &Word) -> (r: Vec<LetterResult>)
        ensures
            r@ == compare_spec(guess@, self@.goal),
    {
        guess.comp(&self.goal)
    }

    /// The aggregated status board: entry `x` describes the letter at
    /// alphabet position `x`, folded over every guess made so far.
    pub fn letter_list(&self) -> (r: Vec<LetterStatus>)
        ensures
            r@.len() == 26,
            forall|x: int| 0 <= x < 26 ==> r@[x] == board_status(self@, letter_of(x)),
    {
        let mut status: Vec<LetterStatus> = Vec::new();
        let mut li: usize = 0;
        while li < 26
            invariant
                status@.len() == li,
                li <= 26,
                forall|x: int| 0 <= x < li ==> status@[x] == LetterStatus::Unused,
            decreases 26 - li,
        {
            status.push(LetterStatus::Unused);
            li = li + 1;
        }
        let n = self.guesses.len();
        let mut k: usize = 0;
        while k < n
            invariant
                n == self@.guesses.len(),
                n == self.guesses.len(),
                k <= n,
                status@.len() == 26,
                forall|x: int|
                    0 <= x < 26 ==> status@[x] == status_upto(self@, k as int, 0, letter_of(x)),
            decreases n - k,
        {
            let g: &Word = &self.guesses[k];
            proof {
                use_type_invariant(g);
                assert(g.deep_view() == self@.guesses[k as int]);
            }
            let res: Vec<LetterResult> = g.comp(&self.goal);
            let mut i: usize = 0;
            while i < 5
                invariant
                    n == self@.guesses.len(),
                    k < n,
                    i <= 5,
                    status@.len() == 26,
                    g@ == self@.guesses[k as int],
                    crate::word::wf_word(g@),
                    res@ == compare_spec(self@.guesses[k as int], self@.goal),
                    forall|x: int|
                        0 <= x < 26 ==> status@[x] == status_upto(
                            self@,
                            k as int,
                            i as int,
                            letter_of(x),
                        ),
                decreases 5 - i,
            {
                let c = g.get(i);
                let ci = crate::word::letter_pos(c);
                let verdict = res[i];
                match verdict {
                    LetterResult::Correct => {
                        status.set(ci, LetterStatus::FoundPosition);
                    },
                    LetterResult::WrongPosition => {
                        if status[ci] != LetterStatus::FoundPosition {
                            status.set(ci, LetterStatus::FoundLetter);
                        }
                    },
                    LetterResult::WrongLetter => {
                        if status[ci] == LetterStatus::Unused {
                            status.set(ci, LetterStatus::NotPresent);
                        }
                    },
                }
                i = i + 1;
                proof {
                    assert forall|x: int| 0 <= x < 26 implies status@[x] == status_upto(
                        self@,
                        k as int,
                        i as int,
                        letter_of(x),
                    ) by {
                        lemma_letter_of_val(x);
                        lemma_appears_step(
                            self@,
                            k as int,
                            i - 1,
                            letter_of(x),
                            LetterResult::Correct,
                        );
                        lemma_appears_step(
                            self@,
                            k as int,
                            i - 1,
                            letter_of(x),
                            LetterResult::WrongPosition,
                        );
                        lemma_appears_step(
                            self@,
                            k as int,
                            i - 1,
                            letter_of(x),
                            LetterResult::WrongLetter,
                        );
                    }
                }
            }
            k = k + 1;
            proof {
                assert forall|x: int| 0 <= x < 26 implies status@[x] == status_upto(
                    self@,
                    k as int,
                    0,
                    letter_of(x),
                ) by {
                    lemma_appears_next_row(self@, k - 1, letter_of(x), LetterResult::Correct);
                    lemma_appears_next_row(self@, k - 1, letter_of(x), LetterResult::WrongPosition);
                    lemma_appears_next_row(self@, k - 1, letter_of(x), LetterResult::WrongLetter);
                }
            }
        }
        status
    }
}

/// The flat snapshot a game is persisted as: the goal's text and the guesses'
/// texts, in guess order. Reading and writing the external store is the
/// store's business; this record is what it hands over and receives.
pub struct GameRecord {
    pub goal: String,
    pub guesses: Vec<String>,
}

/// The guesses a snapshot's guess list yields: each entry that validates as a
/// word against `dict` (trimmed), in order; entries that do not validate are
/// dropped.
pub open spec fn kept_guesses(ss: Seq<Seq<char>>, dict: Seq<Seq<char>>) -> Seq<Seq<char>>
    decreases ss.len(),
{
    if ss.len() == 0 {
        Seq::empty()
    } else {
        let rest = kept_guesses(ss.drop_last(), dict);
        if valid_word(trim_spec(ss.last()), dict) {
            rest.push(trim_spec(ss.last()))
        } else {
            rest
        }
    }
}

impl Game {
    /// Rebuilds a game from a persisted snapshot: guess entries that do not
    /// validate against `dict` are dropped; the snapshot is `Corrupt` iff
    /// more than six guesses remain or the goal text does not validate.
    pub fn from_record(rec: &GameRecord, dict: &Dictionary) -> (r: Result<
        Game,
        PersistenceError,
    >)
        ensures
            ({
                let kept = kept_guesses(rec.guesses.deep_view(), dict@);
                match r {
                    Ok(g) => valid_word(trim_spec(rec.goal@), dict@) && kept.len() <= MAX_GUESSES
                        && g@.goal == trim_spec(rec.goal@) && g@.guesses == kept,
                    Err(e) => e == PersistenceError::Corrupt && (!valid_word(
                        trim_spec(rec.goal@),
                        dict@,
                    ) || kept.len() > MAX_GUESSES),
                }
            }),
    {
        let n = rec.guesses.len();
        let mut words: Vec<Word> = Vec::new();
        let mut j: usize = 0;
        while j < n
            invariant
                n == rec.guesses.len(),
                j <= n,
                words.deep_view() == kept_guesses(rec.guesses.deep_view().take(j as int), dict@),
            decreases n - j,
        {
            let ghost prefix = rec.guesses.deep_view().take(j as int);
            match Word::from(rec.guesses[j].clone(), dict) {
                Ok(w) => {
                    words.push(w);
                },
                Err(_) => {},
            }
            j = j + 1;
            proof {
                let prefix2 = rec.guesses.deep_view().take(j as int);
                assert(prefix2.drop_last() =~= prefix);
                assert(prefix2.last() == rec.guesses.deep_view()[j - 1]);
                assert(words.deep_view() =~= kept_guesses(prefix2, dict@));
            }
        }
        proof {
            assert(rec.guesses.deep_view().take(n as int) =~= rec.guesses.deep_view());
        }
        if words.len() > MAX_GUESSES {
            return Err(PersistenceError::Corrupt);
        }
        match Word::from(rec.goal.clone(), dict) {
            Ok(goal) => Ok(Game { goal, guesses: words }),
            Err(_) => Err(PersistenceError::Corrupt),
        }
    }

    /// The snapshot this game is persisted as.
    pub fn to_record(&self) -> (rec: GameRecord)
        ensures
            rec.goal@ == self@.goal,
            rec.guesses.deep_view() == self@.guesses,
    {
        let goal: String = self.goal.as_string().clone();
        let n = self.guesses.len();
        let mut texts: Vec<String> = Vec::new();
        let mut j: usize = 0;
        while j < n
            invariant
                n == self.guesses.len(),
                n == self@.guesses.len(),
                j <= n,
                texts.deep_view() == self@.guesses.take(j as int),
            decreases n - j,
        {
            proof {
                assert(texts.deep_view().len() == j);
            }
            let w: &Word = &self.guesses[j];
            texts.push(w.as_string().clone());
            j = j + 1;
            proof {
                assert(texts@[j - 1]@ == self@.guesses[j - 1]);
                assert(texts.deep_view() =~= self@.guesses.take(j as int));
            }
        }
        proof {
            assert(self@.guesses.take(n as int) =~= self@.guesses);
        }
        GameRecord { goal, guesses: texts }
    }
}

/// The letter-status board is a pure function of the game: any two boards
/// computed from the same game, without a mutation in between, are identical.
pub proof fn lemma_board_idempotent(v: GameView, b1: Seq<LetterStatus>, b2: Seq<LetterStatus>)
    requires
        b1.len() == 26,
        b2.len() == 26,
        forall|x: int| 0 <= x < 26 ==> b1[x] == board_status(v, letter_of(x)),
        forall|x: int| 0 <= x < 26 ==> b2[x] == board_status(v, letter_of(x)),
    ensures
        b1 == b2,
{
    assert(b1 =~= b2);
}

/// Once a letter's status reaches `FoundPosition`, adding any further guess
/// never moves it to another status.
pub proof fn lemma_found_position_sticky(v: GameView, w: Seq<char>, c: char)
    requires
        board_status(v, c) == LetterStatus::FoundPosition,
    ensures
        board_status(with_guess(v, w), c) == LetterStatus::FoundPosition,
{
    let v2 = with_guess(v, w);
    assert(appears_with(v, c, LetterResult::Correct));
    let (k, i) = choose|k: int, i: int|
        0 <= k < v.guesses.len() && 0 <= i < 5 && (k < v.guesses.len() || (k == v.guesses.len()
            && i < 0)) && v.guesses[k][i] == c && compare_spec(v.guesses[k], v.goal)[i]
            == LetterResult::Correct;
    assert(v2.guesses[k] == v.guesses[k]);
    assert(appears_with(v2, c, LetterResult::Correct));
}

} // verus!
