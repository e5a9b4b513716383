//! A validated five-letter guessable token, the dictionary it is checked
//! against, and the per-letter comparison of a guess with a goal word.

use vstd::prelude::*;
use crate::{is_lower_alpha, lemma_letter_of_val, letter_index, letter_of, LetterResult};

verus! {

/// Why a raw string was rejected as a word, first failure wins: the trimmed
/// text must have exactly five characters, all of them single-byte ASCII, all
/// of them lowercase letters, and it must appear in the guess dictionary.
#[derive(Clone, Copy, Debug, PartialEq, Eq, Structural)]
pub enum ValidationError {
    WrongLength,
    NotAscii,
    NotAlphabetic,
    NotInDictionary,
}

/// Whether `c` counts as surrounding whitespace for word trimming.
pub open spec fn is_space(c: char) -> bool {
    c == ' ' || c == '\t' || c == '\n' || c == '\r'
}

/// The first position at or after `i` holding a non-whitespace character,
/// or the length of `s` if there is none.
pub open spec fn first_non_space_from(s: Seq<char>, i: int) -> int
    decreases s.len() - i,
{
    if i < 0 || i >= s.len() {
        i
    } else if is_space(s[i]) {
        first_non_space_from(s, i + 1)
    } else {
        i
    }
}

/// One past the last position below `j` holding a non-whitespace character,
/// or `0` if there is none.
pub open spec fn last_non_space_end(s: Seq<char>, j: int) -> int
    decreases j,
{
    if j <= 0 {
        0
    } else if is_space(s[j - 1]) {
        last_non_space_end(s, j - 1)
    } else {
        j
    }
}

/// `s` with surrounding whitespace removed.
pub open spec fn trim_spec(s: Seq<char>) -> Seq<char> {
    let a = first_non_space_from(s, 0);
    let b = last_non_space_end(s, s.len() as int);
    if a < b {
        s.subrange(a, b)
    } else {
        Seq::empty()
    }
}

/// Every character of `s` is single-byte ASCII.
pub open spec fn all_ascii(s: Seq<char>) -> bool {
    forall|i: int| 0 <= i < s.len() ==> (s[i] as u32) < 128
}

/// Every character of `s` is a lowercase ASCII letter.
pub open spec fn all_lower_alpha(s: Seq<char>) -> bool {
    forall|i: int| 0 <= i < s.len() ==> is_lower_alpha(s[i])
}

/// The shape every constructed word has: exactly five lowercase letters.
pub open spec fn wf_word(s: Seq<char>) -> bool {
    s.len() == 5 && all_lower_alpha(s)
}

/// A trimmed text is accepted as a word against dictionary `dict` iff it has
/// five lowercase-alphabetic characters and is a member of the dictionary.
pub open spec fn valid_word(t: Seq<char>, dict: Seq<Seq<char>>) -> bool {
    t.len() == 5 && all_lower_alpha(t) && dict.contains(t)
}

/// The externally supplied list of valid guesses, held as plain strings.
pub struct Dictionary {
    words: Vec<String>,
}

impl View for Dictionary {
    type V = Seq<Seq<char>>;

    closed spec fn view(&self) -> Seq<Seq<char>> {
        self.words.deep_view()
    }
}

impl Dictionary {
    /// Wraps an externally loaded list of valid guesses.
    pub fn new(words: Vec<String>) -> (d: Dictionary)
        ensures
            d@ == words.deep_view(),
    {
        Dictionary { words }
    }

    /// Whether `candidate` is a member of the dictionary.
    pub fn contains(&self, candidate: &str) -> (r: bool)
        ensures
            r == self@.contains(candidate@),
    {
        let n = self.words.len();
        let mut i: usize = 0;
        while i < n
            invariant
                n == self.words.len(),
                i <= n,
                forall|j: int| 0 <= j < i ==> self@[j] != candidate@,
            decreases n - i,
        {
            if str_eq(self.words[i].as_str(), candidate) {
                assert(self@[i as int] == candidate@);
                return true;
            }
            i = i + 1;
        }
        assert(!self@.contains(candidate@)) by {
            assert forall|j: int| 0 <= j < self@.len() implies self@[j] != candidate@ by {}
        }
        false
    }
}

/// Whether `guess` appears in the guess dictionary, exactly as given.
pub fn is_valid_guess(guess: &str, dict: &Dictionary) -> (r: bool)
    ensures
        r == dict@.contains(guess@),
{
    dict.contains(guess)
}

/// Character-wise string equality.
fn str_eq(a: &str, b: &str) -> (r: bool)
    ensures
        r == (a@ == b@),
{
    let na = a.unicode_len();
    let nb = b.unicode_len();
    if na != nb {
        return false;
    }
    let mut i: usize = 0;
    while i < na
        invariant
            na == a@.len(),
            na == b@.len(),
            i <= na,
            forall|j: int| 0 <= j < i ==> a@[j] == b@[j],
        decreases na - i,
    {
        if a.get_char(i) != b.get_char(i) {
            return false;
        }
        i = i + 1;
    }
    proof {
        assert(a@ =~= b@);
    }
    true
}

/// An immutable, validated five-letter word. Construction through
/// [`Word::from`] is the only creation point; the stored text is the trimmed
/// input and always consists of exactly five lowercase ASCII letters.
#[derive(Debug)]
pub struct Word {
    text: String,
}

impl View for Word {
    type V = Seq<char>;

    closed spec fn view(&self) -> Seq<char> {
        self.text@
    }
}

impl DeepView for Word {
    type V = Seq<char>;

    open spec fn deep_view(&self) -> Seq<char> {
        self@
    }
}

impl Word {
    /// Holds of every word ever constructed; recover it with
    /// `use_type_invariant`.
    #[verifier::type_invariant]
    pub open spec fn inv(self) -> bool {
        wf_word(self@)
    }
}

/// What [`Word::from`] returns on raw text `raw` against dictionary `dict`:
/// the trimmed text as a word when it validates, and otherwise the error of
/// the first validation step that fails.
pub open spec fn from_outcome(
    raw: Seq<char>,
    dict: Seq<Seq<char>>,
    r: Result<Word, ValidationError>,
) -> bool {
    let t = trim_spec(raw);
    match r {
        Ok(w) => w@ == t && valid_word(t, dict),
        Err(ValidationError::WrongLength) => t.len() != 5,
        Err(ValidationError::NotAscii) => t.len() == 5 && !all_ascii(t),
        Err(ValidationError::NotAlphabetic) => t.len() == 5 && all_ascii(t) && !all_lower_alpha(t),
        Err(ValidationError::NotInDictionary) => t.len() == 5 && all_lower_alpha(t)
            && !dict.contains(t),
    }
}

/// Every raw text whose trimmed form is a five-letter lowercase word of the
/// dictionary is accepted, and the accepted word's text is exactly that
/// trimmed form.
pub proof fn lemma_valid_text_accepted(
    raw: Seq<char>,
    dict: Seq<Seq<char>>,
    r: Result<Word, ValidationError>,
)
    requires
        from_outcome(raw, dict, r),
        valid_word(trim_spec(raw), dict),
    ensures
        r is Ok,
        r->Ok_0@ == trim_spec(raw),
{
}

/// Every raw text whose trimmed form does not have exactly five characters
/// is rejected with `WrongLength`.
pub proof fn lemma_wrong_length_rejected(
    raw: Seq<char>,
    dict: Seq<Seq<char>>,
    r: Result<Word, ValidationError>,
)
    requires
        from_outcome(raw, dict, r),
        trim_spec(raw).len() != 5,
    ensures
        r is Err,
        r->Err_0 == ValidationError::WrongLength,
{
}

/// Whether `c` counts as whitespace for trimming.
fn char_is_space(c: char) -> (b: bool)
    ensures
        b == is_space(c),
{
    c == ' ' || c == '\t' || c == '\n' || c == '\r'
}

proof fn lemma_first_non_space(s: Seq<char>, i: int, k: int)
    requires
        0 <= i <= k <= s.len(),
        forall|j: int| i <= j < k ==> is_space(s[j]),
        k == s.len() || !is_space(s[k]),
    ensures
        first_non_space_from(s, i) == k,
    decreases k - i,
{
    if i < k {
        lemma_first_non_space(s, i + 1, k);
    }
}

proof fn lemma_last_non_space_end(s: Seq<char>, m: int, k: int)
    requires
        0 <= k <= m <= s.len(),
        forall|j: int| k <= j < m ==> is_space(s[j]),
        k == 0 || !is_space(s[k - 1]),
    ensures
        last_non_space_end(s, m) == k,
    decreases m - k,
{
    if k < m {
        lemma_last_non_space_end(s, m - 1, k);
    }
}

impl Word {
    /// Validates `text` against `dict` and wraps its trimmed form as a word.
    /// The validation pipeline, first failure winning: trim surrounding
    /// whitespace, then exactly five characters, then all ASCII, then all
    /// lowercase letters, then membership in the dictionary.
    pub fn from(text: String, dict: &Dictionary) -> (r: Result<Word, ValidationError>)
        ensures
            from_outcome(text@, dict@, r),
    {
        let s: &str = text.as_str();
        let n: usize = s.unicode_len();
        let mut start: usize = 0;
        while start < n && char_is_space(s.get_char(start))
            invariant
                s@ == text@,
                n == s@.len(),
                start <= n,
                forall|j: int| 0 <= j < start ==> is_space(s@[j]),
            decreases n - start,
        {
            start = start + 1;
        }
        let mut end: usize = n;
        while end > start && char_is_space(s.get_char(end - 1))
            invariant
                s@ == text@,
                n == s@.len(),
                start <= end <= n,
                forall|j: int| end <= j < n ==> is_space(s@[j]),
            decreases end,
        {
            end = end - 1;
        }
        proof {
            if start == end {
                assert forall|j: int| 0 <= j < n implies is_space(s@[j]) by {}
                lemma_first_non_space(s@, 0, start as int);
                lemma_last_non_space_end(s@, n as int, 0);
            } else {
                lemma_first_non_space(s@, 0, start as int);
                lemma_last_non_space_end(s@, n as int, end as int);
            }
        }
        let t: &str = s.substring_char(start, end);
        proof {
            assert(t@ =~= trim_spec(text@));
        }
        if end - start != 5 {
            return Err(ValidationError::WrongLength);
        }
        let mut i: usize = 0;
        while i < 5
            invariant
                t@ == trim_spec(text@),
                t@.len() == 5,
                i <= 5,
                forall|j: int| 0 <= j < i ==> (t@[j] as u32) < 128,
            decreases 5 - i,
        {
            let c = t.get_char(i);
            if c as u32 >= 128 {
                return Err(ValidationError::NotAscii);
            }
            i = i + 1;
        }
        let mut i: usize = 0;
        while i < 5
            invariant
                t@ == trim_spec(text@),
                t@.len() == 5,
                all_ascii(t@),
                i <= 5,
                forall|j: int| 0 <= j < i ==> is_lower_alpha(t@[j]),
            decreases 5 - i,
        {
            let c = t.get_char(i);
            let u = c as u32;
            if u < 97 || u > 122 {
                return Err(ValidationError::NotAlphabetic);
            }
            i = i + 1;
        }
        if !dict.contains(t) {
            return Err(ValidationError::NotInDictionary);
        }
        Ok(Word { text: t.to_owned() })
    }

    /// The character at position `index` of the word; positions run `0..5`.
    pub fn get(&self, index: usize) -> (c: char)
        requires
            index < 5,
        ensures
            c == self@[index as int],
    {
        proof {
            use_type_invariant(self);
        }
        self.text.as_str().get_char(index)
    }

    /// The word's text: the trimmed form of the text it was built from.
    pub fn as_string(&self) -> (r: &String)
        ensures
            r@ == self@,
    {
        &self.text
    }
}

/// How many times `c` occurs in `s`.
pub open spec fn count_in(s: Seq<char>, c: char) -> int
    decreases s.len(),
{
    if s.len() == 0 {
        0
    } else {
        count_in(s.drop_last(), c) + if s.last() == c {
            1int
        } else {
            0int
        }
    }
}

/// How many occurrences of letter `c` the positions of `guess` before `i`
/// have consumed from the goal's supply: one for each earlier position that
/// holds `c` and was answered `Correct` or `WrongPosition`.
pub open spec fn consumed_before(guess: Seq<char>, goal: Seq<char>, c: char, i: int) -> int
    decreases i, 0int,
{
    if i <= 0 {
        0
    } else {
        consumed_before(guess, goal, c, i - 1) + if guess[i - 1] == c && result_at(
            guess,
            goal,
            i - 1,
        ) != LetterResult::WrongLetter {
            1int
        } else {
            0int
        }
    }
}

/// The feedback for position `i` of `guess` against `goal`, positions decided
/// in order from the left: with a positive remaining count for the letter, an
/// exact match is `Correct` and a letter present elsewhere in the goal is
/// `WrongPosition`, either consuming one occurrence; everything else, in
/// particular a letter whose occurrences are already consumed, is
/// `WrongLetter`.
pub open spec fn result_at(guess: Seq<char>, goal: Seq<char>, i: int) -> LetterResult
    decreases i, 1int,
{
    if i < 0 {
        LetterResult::WrongLetter
    } else {
        let c = guess[i];
        let remaining = count_in(goal, c) - consumed_before(guess, goal, c, i);
        if remaining > 0 && goal[i] == c {
            LetterResult::Correct
        } else if remaining > 0 && goal.contains(c) {
            LetterResult::WrongPosition
        } else {
            LetterResult::WrongLetter
        }
    }
}

/// The per-letter feedback for a whole five-letter guess against a goal.
pub open spec fn compare_spec(guess: Seq<char>, goal: Seq<char>) -> Seq<LetterResult> {
    Seq::new(5, |i: int| result_at(guess, goal, i))
}

proof fn lemma_count_in_bounds(s: Seq<char>, c: char)
    ensures
        0 <= count_in(s, c) <= s.len(),
    decreases s.len(),
{
    if s.len() > 0 {
        lemma_count_in_bounds(s.drop_last(), c);
    }
}

proof fn lemma_count_in_pos(s: Seq<char>, c: char)
    requires
        count_in(s, c) > 0,
    ensures
        s.contains(c),
    decreases s.len(),
{
    if s.len() > 0 {
        if s.last() == c {
            assert(s[s.len() - 1] == c);
        } else {
            lemma_count_in_pos(s.drop_last(), c);
            let j = choose|j: int| 0 <= j < s.drop_last().len() && s.drop_last()[j] == c;
            assert(s[j] == c);
        }
    }
}

proof fn lemma_consumed_nonneg(guess: Seq<char>, goal: Seq<char>, c: char, i: int)
    ensures
        consumed_before(guess, goal, c, i) >= 0,
    decreases i,
{
    if i > 0 {
        lemma_consumed_nonneg(guess, goal, c, i - 1);
    }
}

/// The alphabet position of a lowercase letter, in `0..26`.
pub(crate) fn letter_pos(c: char) -> (li: usize)
    requires
        is_lower_alpha(c),
    ensures
        li == letter_index(c),
        li < 26,
        letter_of(li as int) == c,
{
    proof {
        lemma_letter_of_val(letter_index(c));
    }
    (c as u32 - 97) as usize
}

impl Word {
    /// Compares this word as a guess against `goal`, giving the feedback for
    /// each of the five positions. Repeated letters consume the goal's supply
    /// left to right, so a letter never earns more `Correct`/`WrongPosition`
    /// answers than it has occurrences in the goal.
    pub fn comp(&self, goal: &Word) -> (r: Vec<LetterResult>)
        ensures
            r@ == compare_spec(self@, goal@),
    {
        proof {
            use_type_invariant(self);
            use_type_invariant(goal);
        }
        let mut counts: Vec<u32> = Vec::new();
        let mut li: usize = 0;
        while li < 26
            invariant
                counts@.len() == li,
                li <= 26,
                forall|x: int| 0 <= x < li ==> counts@[x] == 0,
            decreases 26 - li,
        {
            counts.push(0);
            li = li + 1;
        }
        let mut j: usize = 0;
        while j < 5
            invariant
                wf_word(goal@),
                counts@.len() == 26,
                j <= 5,
                forall|x: int|
                    0 <= x < 26 ==> counts@[x] == count_in(goal@.take(j as int), letter_of(x)),
            decreases 5 - j,
        {
            let c = goal.get(j);
            let ci = letter_pos(c);
            let cur = counts[ci];
            proof {
                lemma_count_in_bounds(goal@.take(j as int), letter_of(ci as int));
            }
            counts.set(ci, cur + 1);
            j = j + 1;
            proof {
                assert(goal@.take(j as int).drop_last() =~= goal@.take(j - 1));
                assert forall|x: int| 0 <= x < 26 implies counts@[x] == count_in(
                    goal@.take(j as int),
                    letter_of(x),
                ) by {
                    lemma_letter_of_val(x);
                    assert(goal@.take(j as int).last() == c);
                }
            }
        }
        proof {
            assert(goal@.take(5) =~= goal@);
        }
        let mut result: Vec<LetterResult> = Vec::new();
        let mut i: usize = 0;
        while i < 5
            invariant
                wf_word(self@),
                wf_word(goal@),
                counts@.len() == 26,
                i <= 5,
                result@.len() == i,
                forall|k: int| 0 <= k < i ==> result@[k] == result_at(self@, goal@, k),
                forall|x: int|
                    0 <= x < 26 ==> counts@[x] == count_in(goal@, letter_of(x)) - consumed_before(
                        self@,
                        goal@,
                        letter_of(x),
                        i as int,
                    ),
            decreases 5 - i,
        {
            let gc = self.get(i);
            let oc = goal.get(i);
            let gi = letter_pos(gc);
            let cnt = counts[gi];
            proof {
                lemma_consumed_nonneg(self@, goal@, gc, i as int);
                if cnt > 0 {
                    lemma_count_in_pos(goal@, gc);
                }
            }
            if cnt > 0 {
                if gc == oc {
                    assert(result_at(self@, goal@, i as int) == LetterResult::Correct);
                    result.push(LetterResult::Correct);
                } else {
                    assert(result_at(self@, goal@, i as int) == LetterResult::WrongPosition);
                    result.push(LetterResult::WrongPosition);
                }
                counts.set(gi, cnt - 1);
            } else {
                assert(result_at(self@, goal@, i as int) == LetterResult::WrongLetter);
                result.push(LetterResult::WrongLetter);
            }
            i = i + 1;
            proof {
                assert forall|x: int| 0 <= x < 26 implies counts@[x] == count_in(
                    goal@,
                    letter_of(x),
                ) - consumed_before(self@, goal@, letter_of(x), i as int) by {
                    lemma_letter_of_val(x);
                }
            }
        }
        proof {
            assert(result@ =~= compare_spec(self@, goal@));
        }
        result
    }
}

impl Clone for Word {
    fn clone(&self) -> (r: Word)
        ensures
            r@ == self@,
    {
        proof {
            use_type_invariant(self);
        }
        Word { text: self.text.clone() }
    }
}

impl PartialEq for Word {
    /// Words are equal exactly when their texts are.
    fn eq(&self, other: &Word) -> (r: bool) {
        str_eq(self.text.as_str(), other.text.as_str())
    }
}

impl vstd::std_specs::cmp::PartialEqSpecImpl for Word {
    open spec fn obeys_eq_spec() -> bool {
        true
    }

    open spec fn eq_spec(&self, other: &Word) -> bool {
        self@ == other@
    }
}

} // verus!

