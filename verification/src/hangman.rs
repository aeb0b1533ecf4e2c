//! The game state and the guess-application transition.
//!
//! A [`Hangman`] value holds the secret word with a reveal flag per
//! position, the remaining-guess budget, and the letters already
//! attempted. Its behaviour is specified against [`GameView`], a
//! mathematical model of the state, and the transition functions
//! [`guess_outcome`] and [`guess_step`].

use vstd::prelude::*;
use vstd::string::StrSliceExecFns;
use crate::utils::{is_lower_letter, lower_char, normalize_word, all_letters, LowercaseAscii};

verus! {

/// One position of the secret word: a fixed letter and a flag saying
/// whether the player has revealed it.
#[derive(Clone, Copy)]
struct LetterStatus {
    letter: char,
    revealed: bool,
}

/// The tagged result of one guess attempt.
#[derive(PartialEq, Eq, Structural, Debug)]
pub enum GuessOutcome {
    AlreadyGuessed,
    Hit,
    Miss,
}

/// Construction failure: the secret word contains a character that is
/// not a Latin letter.
#[derive(Debug)]
pub struct WordFormatError;

/// The mathematical model of a game state: the secret word's letters,
/// the per-position reveal flags, the remaining-guess budget, and the
/// set of letters already attempted.
#[verifier::ext_equal]
pub struct GameView {
    pub letters: Seq<char>,
    pub revealed: Seq<bool>,
    pub budget: int,
    pub guessed: Set<char>,
}

impl GameView {
    /// Validity: one reveal flag per letter, every letter a lowercase
    /// Latin letter, a position revealed exactly when its letter has
    /// been attempted, and a budget within the counter's range.
    pub open spec fn wf(self) -> bool {
        &&& self.revealed.len() == self.letters.len()
        &&& (forall|i: int| 0 <= i < self.letters.len() ==> is_lower_letter(#[trigger] self.letters[i]))
        &&& (forall|i: int|
            0 <= i < self.letters.len() ==> ((#[trigger] self.revealed[i]) <==> self.guessed.contains(
                self.letters[i],
            )))
        &&& 0 <= self.budget <= u8::MAX
    }

    /// The game is lost once the guess budget reaches zero.
    pub open spec fn is_lost(self) -> bool {
        self.budget == 0
    }

    /// The game is won once every position is revealed.
    pub open spec fn is_won(self) -> bool {
        forall|i: int| 0 <= i < self.revealed.len() ==> #[trigger] self.revealed[i]
    }

    /// The obfuscated rendering: revealed letters shown in place,
    /// unrevealed positions shown as the placeholder `'*'`.
    pub open spec fn rendered(self) -> Seq<char> {
        Seq::new(
            self.letters.len(),
            |i: int| if self.revealed[i] { self.letters[i] } else { '*' },
        )
    }
}

/// The outcome of guessing `c` in state `m`: a letter already
/// attempted is a duplicate, a letter occurring in the word is a hit,
/// any other letter is a miss.
pub open spec fn guess_outcome(m: GameView, c: char) -> GuessOutcome {
    if m.guessed.contains(c) {
        GuessOutcome::AlreadyGuessed
    } else if m.letters.contains(c) {
        GuessOutcome::Hit
    } else {
        GuessOutcome::Miss
    }
}

/// The state after guessing `c` in state `m`: a duplicate changes
/// nothing; a hit records the letter and reveals each of its
/// occurrences, leaving the budget alone; a miss records the letter
/// and spends one guess.
pub open spec fn guess_step(m: GameView, c: char) -> GameView {
    if m.guessed.contains(c) {
        m
    } else if m.letters.contains(c) {
        GameView {
            revealed: Seq::new(m.revealed.len(), |i: int| m.revealed[i] || m.letters[i] == c),
            guessed: m.guessed.insert(c),
            ..m
        }
    } else {
        GameView { guessed: m.guessed.insert(c), budget: m.budget - 1, ..m }
    }
}

/// Guessing a letter present in the word reveals every occurrence of
/// it, leaves every other position as it was, and does not spend a
/// guess.
pub proof fn lemma_hit_reveals_all(m: GameView, c: char)
    requires
        m.wf(),
        !m.guessed.contains(c),
        m.letters.contains(c),
    ensures
        guess_outcome(m, c) == GuessOutcome::Hit,
        guess_step(m, c).budget == m.budget,
        forall|i: int|
            0 <= i < m.letters.len() && m.letters[i] == c ==> #[trigger] guess_step(
                m,
                c,
            ).revealed[i],
        forall|i: int|
            0 <= i < m.letters.len() && m.letters[i] != c ==> #[trigger] guess_step(m, c).revealed[i]
                == m.revealed[i],
{
}

/// Guessing a letter absent from the word spends exactly one guess
/// and reveals nothing.
pub proof fn lemma_miss_spends_one(m: GameView, c: char)
    requires
        m.wf(),
        !m.guessed.contains(c),
        !m.letters.contains(c),
    ensures
        guess_outcome(m, c) == GuessOutcome::Miss,
        guess_step(m, c).budget == m.budget - 1,
        guess_step(m, c).revealed == m.revealed,
{
}

/// Repeating a guess is reported as a duplicate and changes nothing,
/// so no letter can spend the budget twice.
pub proof fn lemma_repeat_guess_is_noop(m: GameView, c: char)
    ensures
        guess_outcome(guess_step(m, c), c) == GuessOutcome::AlreadyGuessed,
        guess_step(guess_step(m, c), c) == guess_step(m, c),
        guess_step(guess_step(m, c), c).budget == guess_step(m, c).budget,
{
    assert(guess_step(m, c).guessed.contains(c));
}

/// Terminal states are stable: under the same proviso the guess
/// application works under (a guess left to spend unless the letter
/// is a duplicate or occurs in the word), no transition leaves a won
/// or a lost state.
pub proof fn lemma_terminal_states_are_stable(m: GameView, c: char)
    requires
        m.wf(),
        m.budget > 0 || m.guessed.contains(c) || m.letters.contains(c),
    ensures
        m.is_won() ==> guess_step(m, c).is_won(),
        m.is_lost() ==> guess_step(m, c).is_lost(),
{
}

/// The guess transition preserves validity, provided the guess is a
/// lowercase letter and, where it would be a miss, a guess is left to
/// spend.
pub proof fn lemma_step_preserves_wf(m: GameView, c: char)
    requires
        m.wf(),
        is_lower_letter(c),
        m.budget > 0 || m.guessed.contains(c) || m.letters.contains(c),
    ensures
        guess_step(m, c).wf(),
{
    if !m.guessed.contains(c) && m.letters.contains(c) {
        assert forall|i: int| 0 <= i < m.letters.len() implies ((#[trigger] guess_step(
            m,
            c,
        ).revealed[i]) <==> guess_step(m, c).guessed.contains(m.letters[i])) by {
            if m.letters[i] == c {
                assert(guess_step(m, c).guessed.contains(c));
            }
        }
    } else if !m.guessed.contains(c) && !m.letters.contains(c) {
        assert forall|i: int| 0 <= i < m.letters.len() implies m.letters[i] != c by {
            if m.letters[i] == c {
                assert(m.letters.contains(c));
            }
        }
    }
}

/// The game state: the secret word with reveal flags, the
/// remaining-guess budget, and the letters already attempted.
pub struct Hangman {
    word: Vec<LetterStatus>,
    num_guesses: u8,
    guessed_chars: Vec<char>,
}

impl View for Hangman {
    type V = GameView;

    closed spec fn view(&self) -> GameView {
        GameView {
            letters: self.word@.map_values(|ls: LetterStatus| ls.letter),
            revealed: self.word@.map_values(|ls: LetterStatus| ls.revealed),
            budget: self.num_guesses as int,
            guessed: Set::new(|c: char| self.guessed_chars@.contains(c)),
        }
    }
}

/// Relies on `String::push`: appends the given character to the end
/// of the string.
#[verifier::external_body]
fn push_char(s: &mut String, c: char)
    ensures
        final(s)@ == old(s)@.push(c),
{
    s.push(c)
}

fn contains_char(v: &Vec<char>, c: char) -> (r: bool)
    ensures
        r == v@.contains(c),
{
    let mut idx: usize = 0;
    while idx < v.len()
        invariant
            idx <= v@.len(),
            forall|j: int| 0 <= j < idx ==> v@[j] != c,
        decreases v@.len() - idx,
    {
        if v[idx] == c {
            return true;
        }
        idx += 1;
    }
    false
}

impl Hangman {
    /// Validity of the underlying model.
    pub open spec fn wf(&self) -> bool {
        self@.wf()
    }

    /// Builds a game state from a raw secret word and an initial
    /// guess budget. The word is normalized to lowercase; it is
    /// accepted exactly when every normalized character is a Latin
    /// letter. Initially nothing is revealed, no letter has been
    /// attempted, and the rendering is all placeholders.
    pub fn new(word: &str, num_guesses: u8) -> (r: Result<Hangman, WordFormatError>)
        ensures
            match r {
                Ok(h) => {
                    &&& all_letters(normalize_word(word@))
                    &&& h.wf()
                    &&& h@.letters == normalize_word(word@)
                    &&& h@.revealed == Seq::new(word@.len(), |i: int| false)
                    &&& h@.budget == num_guesses as int
                    &&& h@.guessed == Set::<char>::empty()
                    &&& h@.rendered() == Seq::new(word@.len(), |i: int| '*')
                },
                Err(_) => !all_letters(normalize_word(word@)),
            },
    {
        let n = word.unicode_len();
        let mut w: Vec<LetterStatus> = Vec::new();
        let mut idx: usize = 0;
        while idx < n
            invariant
                n == word@.len(),
                idx <= n,
                w@.len() == idx,
                forall|j: int|
                    0 <= j < idx ==> (#[trigger] w@[j]).letter == lower_char(word@[j]),
                forall|j: int| 0 <= j < idx ==> is_lower_letter((#[trigger] w@[j]).letter),
                forall|j: int| 0 <= j < idx ==> !(#[trigger] w@[j]).revealed,
            decreases n - idx,
        {
            let c = word.get_char(idx);
            let lowered = crate::utils::to_lower(c);
            if !('a' <= lowered && lowered <= 'z') {
                assert(!is_lower_letter(normalize_word(word@)[idx as int]));
                return Err(WordFormatError);
            }
            w.push(LetterStatus { letter: lowered, revealed: false });
            idx += 1;
        }
        let h = Hangman { word: w, num_guesses, guessed_chars: Vec::new() };
        proof {
            assert(h@.letters =~= normalize_word(word@));
            assert(h@.revealed =~= Seq::new(word@.len(), |i: int| false));
            assert(h@.guessed =~= Set::<char>::empty());
            assert(h@.rendered() =~= Seq::new(word@.len(), |i: int| '*'));
        }
        Ok(h)
    }

    /// Applies one pre-validated guess: reports a duplicate without
    /// change, reveals every occurrence of a hit without spending a
    /// guess, and spends exactly one guess on a miss. The caller must
    /// leave a guess to spend unless the letter is a duplicate or
    /// occurs in the word (the session loop guarantees this by
    /// stopping at a lost game).
    pub fn apply_guess(&mut self, guess: &LowercaseAscii) -> (r: GuessOutcome)
        requires
            old(self).wf(),
            guess.wf(),
            old(self)@.budget > 0 || old(self)@.guessed.contains(guess@) || old(
                self,
            )@.letters.contains(guess@),
        ensures
            final(self).wf(),
            final(self)@ == guess_step(old(self)@, guess@),
            r == guess_outcome(old(self)@, guess@),
    {
        let g = guess.get_value();
        if contains_char(&self.guessed_chars, g) {
            return GuessOutcome::AlreadyGuessed;
        }
        self.guessed_chars.push(g);
        proof {
            broadcast use vstd::seq_lib::lemma_seq_contains_after_push;

            assert(self@.guessed =~= old(self)@.guessed.insert(g));
        }
        let mut did_guess = false;
        let n = self.word.len();
        let mut idx: usize = 0;
        while idx < n
            invariant
                n == self.word@.len(),
                idx <= n,
                self.num_guesses == old(self).num_guesses,
                self.guessed_chars@ == old(self).guessed_chars@.push(g),
                forall|j: int|
                    0 <= j < n ==> (#[trigger] self.word@[j]).letter == old(self).word@[j].letter,
                forall|j: int|
                    0 <= j < idx ==> (#[trigger] self.word@[j]).revealed == (old(
                        self,
                    ).word@[j].revealed || old(self).word@[j].letter == g),
                forall|j: int|
                    idx <= j < n ==> (#[trigger] self.word@[j]).revealed == old(
                        self,
                    ).word@[j].revealed,
                did_guess <==> exists|j: int| 0 <= j < idx && old(self).word@[j].letter == g,
            decreases n - idx,
        {
            let ls = self.word[idx];
            if ls.letter == g {
                self.word.set(idx, LetterStatus { letter: ls.letter, revealed: true });
                did_guess = true;
                assert(old(self).word@[idx as int].letter == g);
            }
            idx += 1;
        }
        proof {
            broadcast use vstd::seq_lib::lemma_seq_contains_after_push;

            assert(self@.guessed =~= old(self)@.guessed.insert(g));
            if exists|j: int| 0 <= j < n && old(self).word@[j].letter == g {
                let j = choose|j: int| 0 <= j < n && old(self).word@[j].letter == g;
                assert(old(self)@.letters[j] == g);
                assert(old(self)@.letters.contains(g));
            }
            if old(self)@.letters.contains(g) {
                let j = choose|j: int|
                    0 <= j < old(self)@.letters.len() && old(self)@.letters[j] == g;
                assert(old(self).word@[j].letter == g);
            }
            lemma_step_preserves_wf(old(self)@, g);
        }
        if did_guess {
            proof {
                assert(self@ =~= guess_step(old(self)@, g));
            }
            GuessOutcome::Hit
        } else {
            assert(!old(self)@.letters.contains(g));
            self.num_guesses = self.num_guesses - 1;
            proof {
                assert(self@.guessed =~= old(self)@.guessed.insert(g));
                assert(self@ =~= guess_step(old(self)@, g));
            }
            GuessOutcome::Miss
        }
    }

    /// True exactly when the guess budget is exhausted: the game is
    /// lost, whatever input follows.
    pub fn is_dead(&self) -> (r: bool)
        ensures
            r == self@.is_lost(),
    {
        self.num_guesses == 0
    }

    /// True exactly when every position of the secret word has been
    /// revealed: the game is won.
    pub fn did_win(&self) -> (r: bool)
        ensures
            r == self@.is_won(),
    {
        let n = self.word.len();
        let mut idx: usize = 0;
        while idx < n
            invariant
                n == self.word@.len(),
                idx <= n,
                forall|j: int| 0 <= j < idx ==> (#[trigger] self.word@[j]).revealed,
            decreases n - idx,
        {
            if !self.word[idx].revealed {
                assert(!self@.revealed[idx as int]);
                return false;
            }
            idx += 1;
        }
        true
    }

    /// The word's display form: revealed letters shown in place,
    /// unrevealed positions shown as `'*'`.
    pub fn construct_obfuscated_word(&self) -> (r: String)
        ensures
            r@ == self@.rendered(),
    {
        let mut out = String::new();
        let n = self.word.len();
        let mut idx: usize = 0;
        while idx < n
            invariant
                n == self.word@.len(),
                idx <= n,
                out@.len() == idx,
                forall|j: int| 0 <= j < idx ==> out@[j] == self@.rendered()[j],
            decreases n - idx,
        {
            let ls = self.word[idx];
            if ls.revealed {
                push_char(&mut out, ls.letter);
            } else {
                push_char(&mut out, '*');
            }
            idx += 1;
        }
        proof {
            assert(out@ =~= self@.rendered());
        }
        out
    }

    /// The number of incorrect guesses still allowed.
    pub fn num_guesses(&self) -> (r: u8)
        ensures
            r as int == self@.budget,
    {
        self.num_guesses
    }

    /// The secret word itself, every letter shown.
    pub fn secret_word(&self) -> (r: String)
        ensures
            r@ == self@.letters,
    {
        let mut out = String::new();
        let n = self.word.len();
        let mut idx: usize = 0;
        while idx < n
            invariant
                n == self.word@.len(),
                idx <= n,
                out@.len() == idx,
                forall|j: int| 0 <= j < idx ==> out@[j] == self@.letters[j],
            decreases n - idx,
        {
            let ls = self.word[idx];
            push_char(&mut out, ls.letter);
            idx += 1;
        }
        proof {
            assert(out@ =~= self@.letters);
        }
        out
    }
}

} // verus!
