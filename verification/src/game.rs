use vstd::prelude::*;

use crate::score::{outcome_at, score, score_spec, Outcome};
use crate::words::{
    get_words, is_upper, is_valid_word, lemma_accepted_words_valid, lemma_normalize_uppercase,
    normalize, sanitize_word, words_of, WORD_LENGTH,
};
use bracket_random::prelude::RandomNumberGenerator;

verus! {

/// Maximum number of accepted guesses in one round.
pub const MAX_TRIES: usize = 5;

/// Whether the round still accepts guesses, or how it ended.
#[derive(Clone, Copy, Debug, PartialEq, Eq, Structural)]
pub enum Status {
    /// The round accepts further guesses.
    Active,
    /// A guess matched the secret word.
    Won,
    /// Every attempt was used without a match.
    Lost,
}

/// Why a submitted guess was turned away. A rejected guess never consumes
/// an attempt.
#[derive(Clone, Copy, Debug, PartialEq, Eq, Structural)]
pub enum RejectionReason {
    /// The normalized guess does not have `WORD_LENGTH` letters.
    WrongLength,
    /// The normalized guess is not in the accepted word set.
    NotInList,
    /// The same word was already guessed this round (only when the round
    /// was configured to reject repeats).
    AlreadyGuessed,
}

/// Declares bracket_random's RandomNumberGenerator, the source of the
/// secret-word draw, as an opaque outside type.
#[verifier::external_type_specification]
#[verifier::external_body]
pub struct ExRandomNumberGenerator(RandomNumberGenerator);

/// Relies on RandomNumberGenerator::new: a generator seeded from the
/// machine's entropy.
#[verifier::external_body]
fn new_rng() -> RandomNumberGenerator {
    RandomNumberGenerator::new()
}

/// Relies on RandomNumberGenerator::seeded: a generator from the given seed.
#[verifier::external_body]
fn seeded_rng(seed: u64) -> RandomNumberGenerator {
    RandomNumberGenerator::seeded(seed)
}

/// Relies on RandomNumberGenerator::random_slice_index: None exactly on an
/// empty slice, otherwise an index into the slice. The length bound keeps
/// the crate's internal roll, on a die of i32 size, in range.
#[verifier::external_body]
fn random_word_index(rng: &mut RandomNumberGenerator, words: &Vec<String>) -> (r: Option<usize>)
    requires
        words@.len() < 0x7fff_ffff,
    ensures
        r is Some <==> words@.len() > 0,
        r is Some ==> r->0 < words@.len(),
{
    rng.random_slice_index(words.as_slice())
}

/// A well-formed word: `WORD_LENGTH` uppercase ASCII letters.
pub open spec fn valid_word(w: Seq<char>) -> bool {
    w.len() == WORD_LENGTH && (forall|i: int| 0 <= i < w.len() ==> is_upper(#[trigger] w[i]))
}

/// Membership of a word in a word list.
pub open spec fn in_list(words: Seq<Seq<char>>, w: Seq<char>) -> bool {
    exists|k: int| 0 <= k < words.len() && words[k] == w
}

/// The status a round has after one more accepted guess: Won on a match,
/// Lost when the attempts are used up, else still Active.
pub open spec fn next_status(guess: Seq<char>, solution: Seq<char>, attempts: nat, max: nat) -> Status {
    if guess == solution {
        Status::Won
    } else if attempts >= max {
        Status::Lost
    } else {
        Status::Active
    }
}

/// Submitting the exact secret word ends the round as Won, whatever the
/// attempt count.
pub proof fn lemma_win_on_secret(solution: Seq<char>, attempts: nat, max: nat)
    ensures
        next_status(solution, solution, attempts, max) is Won,
{
}

/// A wrong accepted guess that uses the last attempt ends the round as
/// Lost; so a run of `max` consecutive wrong accepted guesses always does.
pub proof fn lemma_lose_on_exhaustion(guess: Seq<char>, solution: Seq<char>, max: nat)
    requires
        guess != solution,
    ensures
        next_status(guess, solution, max, max) is Lost,
{
}

/// In a well-formed active round the secret word itself is always an
/// acceptable guess: it has the valid length, it stands in the word set,
/// and it cannot be a rejected repeat, since a round in which it was
/// already guessed would have ended as Won.
pub proof fn lemma_secret_always_accepted(g: GameState)
    requires
        g.wf(),
        g.status is Active,
    ensures
        g.accepts(g.solution@),
{
    if in_list(g.guesses.deep_view(), g.solution@) {
        let k = choose|k: int|
            0 <= k < g.guesses.deep_view().len() && g.guesses.deep_view()[k] == g.solution@;
        assert(g.guesses.deep_view()[k] != g.solution@);
    }
}

/// The letters of a guess whose outcome against the secret is Absent.
pub open spec fn absent_letters_of(secret: Seq<char>, guess: Seq<char>) -> Set<char> {
    Set::new(
        |c: char|
            exists|i: int|
                0 <= i < guess.len() && guess[i] == c && outcome_at(secret, guess, i)
                    == Outcome::Absent,
    )
}

/// One round of the game: the secret word, the accepted word set, the
/// guesses so far, the letters found absent, and the round's status.
pub struct GameState {
    /// The accepted word set, in encounter order.
    pub all_words: Vec<String>,
    /// The secret word, drawn from `all_words`.
    pub solution: String,
    /// Letters scored Absent by some accepted guess, each held once.
    pub guessed_letters: Vec<char>,
    /// Every accepted guess, in order; its length is the attempt count.
    pub guesses: Vec<String>,
    /// How many accepted guesses end the round.
    pub max_tries: usize,
    /// Whether a word may be guessed twice in one round.
    pub reject_repeats: bool,
    /// Whether the round is running, won or lost.
    pub status: Status,
}

impl GameState {
    /// The internal invariant every constructor establishes and every
    /// operation preserves.
    pub open spec fn wf(&self) -> bool {
        &&& valid_word(self.solution@)
        &&& in_list(self.all_words.deep_view(), self.solution@)
        &&& forall|k: int|
            0 <= k < self.all_words@.len() ==> valid_word(#[trigger] self.all_words.deep_view()[k])
        &&& forall|k: int|
            0 <= k < self.guesses@.len() ==> valid_word(#[trigger] self.guesses.deep_view()[k])
        &&& self.guesses@.len() <= self.max_tries
        &&& forall|i: int, j: int|
            0 <= i < j < self.guessed_letters@.len() ==> self.guessed_letters@[i]
                != self.guessed_letters@[j]
        &&& (self.status is Active <==> (self.guesses@.len() < self.max_tries && forall|k: int|
            0 <= k < self.guesses@.len() ==> #[trigger] self.guesses.deep_view()[k]
                != self.solution@))
        &&& (self.status is Won ==> self.guesses@.len() >= 1 && self.guesses.deep_view().last()
            == self.solution@)
        &&& (self.status is Lost ==> self.guesses@.len() == self.max_tries && forall|k: int|
            0 <= k < self.guesses@.len() ==> #[trigger] self.guesses.deep_view()[k]
                != self.solution@)
    }

    /// True when the round no longer accepts guesses.
    pub fn is_terminal(&self) -> (r: bool)
        ensures
            r == !(self.status is Active),
    {
        match self.status {
            Status::Active => false,
            Status::Won => true,
            Status::Lost => true,
        }
    }

    /// The number of accepted guesses so far.
    pub fn attempts(&self) -> (r: usize)
        ensures
            r == self.guesses@.len(),
    {
        self.guesses.len()
    }

    /// The secret word of this round.
    pub fn solution(&self) -> (r: &String)
        ensures
            r@ == self.solution@,
    {
        &self.solution
    }

    /// The round's status.
    pub fn status(&self) -> (r: Status)
        ensures
            r == self.status,
    {
        self.status
    }

    /// The accepted guesses so far, oldest first.
    pub fn guesses(&self) -> (r: &Vec<String>)
        ensures
            r.deep_view() == self.guesses.deep_view(),
    {
        &self.guesses
    }

    /// The letters scored Absent so far, for player guidance.
    pub fn guessed_letters(&self) -> (r: &Vec<char>)
        ensures
            r@ == self.guessed_letters@,
    {
        &self.guessed_letters
    }

    /// Whether a normalized word would be accepted as a guess: valid
    /// length, in the word set, and not a rejected repeat.
    pub open spec fn accepts(self, w: Seq<char>) -> bool {
        &&& w.len() == WORD_LENGTH
        &&& in_list(self.all_words.deep_view(), w)
        &&& !(self.reject_repeats && in_list(self.guesses.deep_view(), w))
    }

    /// Normalizes raw input and plays it as one guess. A rejected guess
    /// (wrong length, not in the list, or a rejected repeat) changes
    /// nothing and names its reason. An accepted guess is scored against
    /// the secret, appended to the history, its Absent letters merged into
    /// the guidance set, and the round moves to Won, Lost or stays Active.
    pub fn submit_guess(&mut self, raw: &str) -> (r: Result<Vec<Outcome>, RejectionReason>)
        requires
            old(self).wf(),
            old(self).status is Active,
        ensures
            final(self).wf(),
            ({
                let w = normalize(raw@);
                let g0 = *old(self);
                &&& (w.len() != WORD_LENGTH ==> r == Err::<Vec<Outcome>, RejectionReason>(
                    RejectionReason::WrongLength,
                ) && *final(self) == g0)
                &&& (w.len() == WORD_LENGTH && !in_list(g0.all_words.deep_view(), w) ==> r
                    == Err::<Vec<Outcome>, RejectionReason>(RejectionReason::NotInList) && *final(self)
                    == g0)
                &&& (w.len() == WORD_LENGTH && in_list(g0.all_words.deep_view(), w)
                    && g0.reject_repeats && in_list(g0.guesses.deep_view(), w) ==> r == Err::<
                    Vec<Outcome>,
                    RejectionReason,
                >(RejectionReason::AlreadyGuessed) && *final(self) == g0)
                &&& (g0.accepts(w) ==> {
                    &&& r is Ok
                    &&& r->Ok_0@ == score_spec(g0.solution@, w)
                    &&& final(self).guesses.deep_view() == g0.guesses.deep_view().push(w)
                    &&& final(self).solution@ == g0.solution@
                    &&& final(self).all_words == g0.all_words
                    &&& final(self).max_tries == g0.max_tries
                    &&& final(self).reject_repeats == g0.reject_repeats
                    &&& final(self).status == next_status(
                        w,
                        g0.solution@,
                        (g0.guesses@.len() + 1) as nat,
                        g0.max_tries as nat,
                    )
                    &&& final(self).guessed_letters@.to_set() == g0.guessed_letters@.to_set().union(
                        absent_letters_of(g0.solution@, w),
                    )
                })
            }),
    {
        let w = sanitize_word(raw);
        if !is_valid_word(w.as_str()) {
            return Err(RejectionReason::WrongLength);
        }
        if !list_contains(&self.all_words, &w) {
            return Err(RejectionReason::NotInList);
        }
        if self.reject_repeats && list_contains(&self.guesses, &w) {
            return Err(RejectionReason::AlreadyGuessed);
        }
        proof {
            lemma_normalize_uppercase(raw@);
        }
        let outcomes = score(self.solution.as_str(), w.as_str());
        let ghost g0 = *old(self);
        let ghost sol = self.solution@;
        let ghost wv = w@;
        let ghost old_set = self.guessed_letters@.to_set();
        let n = w.as_str().unicode_len();
        let mut k: usize = 0;
        proof {
            assert(old_set.union(absent_letters_upto(sol, wv, 0)) =~= old_set);
        }
        while k < n
            invariant
                n == wv.len(),
                k <= n,
                w@ == wv,
                outcomes@ == score_spec(sol, wv),
                self.solution == g0.solution,
                self.all_words == g0.all_words,
                self.guesses == g0.guesses,
                self.max_tries == g0.max_tries,
                self.reject_repeats == g0.reject_repeats,
                self.status == g0.status,
                sol == self.solution@,
                unique_letters(self.guessed_letters@),
                self.guessed_letters@.to_set() == old_set.union(absent_letters_upto(sol, wv, k as int)),
            decreases n - k,
        {
            let oc = outcomes[k];
            if oc == Outcome::Absent {
                let c = w.as_str().get_char(k);
                insert_letter(&mut self.guessed_letters, c);
                proof {
                    assert(outcome_at(sol, wv, k as int) == Outcome::Absent);
                    assert(old_set.union(absent_letters_upto(sol, wv, k as int)).insert(c)
                        =~= old_set.union(absent_letters_upto(sol, wv, k + 1)));
                }
            } else {
                proof {
                    assert(outcome_at(sol, wv, k as int) != Outcome::Absent);
                    assert(absent_letters_upto(sol, wv, k as int) =~= absent_letters_upto(
                        sol,
                        wv,
                        k + 1,
                    ));
                }
            }
            k = k + 1;
        }
        proof {
            assert(absent_letters_upto(sol, wv, n as int) =~= absent_letters_of(sol, wv));
        }
        let won = w.eq(&self.solution);
        let ghost old_guesses = self.guesses.deep_view();
        self.guesses.push(w);
        proof {
            assert(self.guesses.deep_view() =~= old_guesses.push(wv));
        }
        self.status = if won {
            Status::Won
        } else if self.guesses.len() >= self.max_tries {
            Status::Lost
        } else {
            Status::Active
        };
        proof {
            let gl = self.guesses.deep_view();
            assert(gl.len() == old_guesses.len() + 1);
            assert(valid_word(wv));
            assert forall|k: int| 0 <= k < self.guesses@.len() implies valid_word(
                #[trigger] self.guesses.deep_view()[k],
            ) by {
                if k < old_guesses.len() {
                    assert(gl[k] == old_guesses[k]);
                } else {
                    assert(gl[k] == wv);
                }
            }
            assert(gl.last() == wv);
            if !won {
                assert(wv != self.solution@);
                assert forall|k: int| 0 <= k < self.guesses@.len() implies #[trigger] self.guesses.deep_view()[k]
                    != self.solution@ by {
                    if k < old_guesses.len() {
                        assert(gl[k] == old_guesses[k]);
                    } else {
                        assert(gl[k] == wv);
                    }
                }
            }
        }
        Ok(outcomes)
    }

    /// Builds a round from an already validated word list and the index of
    /// the secret in it. None when the index is out of range or some word
    /// is not `WORD_LENGTH` uppercase letters.
    pub fn from_parts(all_words: Vec<String>, secret_index: usize, reject_repeats: bool) -> (r:
        Option<GameState>)
        ensures
            r is Some <==> (secret_index < all_words@.len() && forall|k: int|
                0 <= k < all_words@.len() ==> valid_word(#[trigger] all_words.deep_view()[k])),
            r is Some ==> {
                let g = r->0;
                &&& g.wf()
                &&& g.all_words.deep_view() == all_words.deep_view()
                &&& g.solution@ == all_words.deep_view()[secret_index as int]
                &&& g.guesses@.len() == 0
                &&& g.guessed_letters@.len() == 0
                &&& g.max_tries == MAX_TRIES
                &&& g.reject_repeats == reject_repeats
                &&& g.status is Active
            },
    {
        if secret_index >= all_words.len() {
            return None;
        }
        let n = all_words.len();
        let mut k: usize = 0;
        while k < n
            invariant
                n == all_words@.len(),
                k <= n,
                forall|j: int| 0 <= j < k ==> valid_word(#[trigger] all_words.deep_view()[j]),
            decreases n - k,
        {
            proof {
                assert(all_words.deep_view()[k as int] == all_words@[k as int]@);
            }
            if !word_is_valid_shape(&all_words[k]) {
                return None;
            }
            k = k + 1;
        }
        let solution = all_words[secret_index].clone();
        proof {
            assert(all_words.deep_view()[secret_index as int] == all_words@[secret_index as int]@);
            assert(solution@ == all_words.deep_view()[secret_index as int]);
            assert(in_list(all_words.deep_view(), solution@));
        }
        Some(
            GameState {
                all_words,
                solution,
                guessed_letters: Vec::new(),
                guesses: Vec::new(),
                max_tries: MAX_TRIES,
                reject_repeats,
                status: Status::Active,
            },
        )
    }

    /// Builds a round from raw word-list text: the text's valid words
    /// become the accepted set and the secret is drawn from them by the
    /// given generator. None exactly when the text yields no valid word
    /// (the fatal setup case) or more than the random source can index.
    fn with_rng(rng: &mut RandomNumberGenerator, raw_words: &str, reject_repeats: bool) -> (r:
        Option<GameState>)
        ensures
            r is Some <==> 0 < words_of(raw_words@).len() <= MAX_WORD_COUNT,
            r is Some ==> {
                let g = r->0;
                &&& g.wf()
                &&& g.all_words.deep_view() == words_of(raw_words@)
                &&& g.guesses@.len() == 0
                &&& g.guessed_letters@.len() == 0
                &&& g.max_tries == MAX_TRIES
                &&& g.reject_repeats == reject_repeats
                &&& g.status is Active
            },
    {
        let words = get_words(raw_words);
        if words.len() == 0 || words.len() > MAX_WORD_COUNT {
            return None;
        }
        let idx = random_word_index(rng, &words).unwrap();
        proof {
            lemma_accepted_words_valid(crate::words::split_lines(raw_words@));
        }
        GameState::from_parts(words, idx, reject_repeats)
    }

    /// Builds a round from raw word-list text, drawing the secret at
    /// random. None exactly when the text yields no valid word (the fatal
    /// setup case) or more than the random source can index.
    pub fn new(raw_words: &str, reject_repeats: bool) -> (r: Option<GameState>)
        ensures
            r is Some <==> 0 < words_of(raw_words@).len() <= MAX_WORD_COUNT,
            r is Some ==> {
                let g = r->0;
                &&& g.wf()
                &&& g.all_words.deep_view() == words_of(raw_words@)
                &&& g.guesses@.len() == 0
                &&& g.guessed_letters@.len() == 0
                &&& g.max_tries == MAX_TRIES
                &&& g.reject_repeats == reject_repeats
                &&& g.status is Active
            },
    {
        let mut rng = new_rng();
        GameState::with_rng(&mut rng, raw_words, reject_repeats)
    }

    /// As `new`, but with an injected seed, so that a round can be
    /// reproduced deterministically.
    pub fn new_seeded(raw_words: &str, seed: u64, reject_repeats: bool) -> (r: Option<GameState>)
        ensures
            r is Some <==> 0 < words_of(raw_words@).len() <= MAX_WORD_COUNT,
            r is Some ==> {
                let g = r->0;
                &&& g.wf()
                &&& g.all_words.deep_view() == words_of(raw_words@)
                &&& g.guesses@.len() == 0
                &&& g.guessed_letters@.len() == 0
                &&& g.max_tries == MAX_TRIES
                &&& g.reject_repeats == reject_repeats
                &&& g.status is Active
            },
    {
        let mut rng = seeded_rng(seed);
        GameState::with_rng(&mut rng, raw_words, reject_repeats)
    }
}

/// The largest word list the random source can draw from (it indexes
/// slices through a signed 32-bit roll).
pub const MAX_WORD_COUNT: usize = 0x7fff_fffe;

/// No letter appears twice.
pub open spec fn unique_letters(s: Seq<char>) -> bool {
    forall|i: int, j: int| 0 <= i < j < s.len() ==> s[i] != s[j]
}

/// The letters of the first n positions of a guess whose outcome is Absent.
pub open spec fn absent_letters_upto(secret: Seq<char>, guess: Seq<char>, n: int) -> Set<char> {
    Set::new(
        |c: char|
            exists|i: int|
                0 <= i < n && i < guess.len() && guess[i] == c && outcome_at(secret, guess, i)
                    == Outcome::Absent,
    )
}

/// Adds a letter to the guidance set unless it is already there.
fn insert_letter(letters: &mut Vec<char>, c: char)
    requires
        unique_letters(old(letters)@),
    ensures
        unique_letters(final(letters)@),
        final(letters)@.to_set() == old(letters)@.to_set().insert(c),
{
    let n = letters.len();
    let mut k: usize = 0;
    let mut seen = false;
    while k < n && !seen
        invariant
            n == letters@.len(),
            k <= n,
            letters@ == old(letters)@,
            !seen ==> forall|j: int| 0 <= j < k ==> letters@[j] != c,
            seen ==> letters@.contains(c),
        decreases n - k + (if seen {
            0int
        } else {
            1int
        }),
    {
        if letters[k] == c {
            seen = true;
        } else {
            k = k + 1;
        }
    }
    if seen {
        proof {
            assert(old(letters)@.to_set().insert(c) =~= old(letters)@.to_set());
        }
    } else {
        letters.push(c);
        proof {
            let before = old(letters)@;
            assert(letters@ == before.push(c));
            assert forall|x: char| #[trigger] letters@.contains(x) implies before.contains(x) || x
                == c by {
                let i = choose|i: int| 0 <= i < letters@.len() && letters@[i] == x;
                if i < before.len() {
                    assert(before[i] == x);
                }
            }
            assert forall|x: char| before.contains(x) implies #[trigger] letters@.contains(x) by {
                let i = choose|i: int| 0 <= i < before.len() && before[i] == x;
                assert(letters@[i] == x);
            }
            assert(letters@[before.len() as int] == c);
            assert(letters@.contains(c));
            assert(letters@.to_set() =~= before.to_set().insert(c));
        }
    }
}

/// Whether the word stands in the list.
fn list_contains(words: &Vec<String>, w: &String) -> (r: bool)
    ensures
        r == in_list(words.deep_view(), w@),
{
    let n = words.len();
    let mut k: usize = 0;
    let mut seen = false;
    while k < n && !seen
        invariant
            n == words@.len(),
            k <= n,
            !seen ==> forall|j: int| 0 <= j < k ==> #[trigger] words.deep_view()[j] != w@,
            seen ==> in_list(words.deep_view(), w@),
        decreases n - k + (if seen {
            0int
        } else {
            1int
        }),
    {
        proof {
            assert(words.deep_view()[k as int] == words@[k as int]@);
        }
        if words[k].eq(w) {
            seen = true;
        } else {
            k = k + 1;
        }
    }
    seen
}

/// Checks that a word is `WORD_LENGTH` uppercase ASCII letters.
pub fn word_is_valid_shape(w: &String) -> (r: bool)
    ensures
        r == valid_word(w@),
{
    let s = w.as_str();
    if !is_valid_word(s) {
        return false;
    }
    let n = s.unicode_len();
    let mut i: usize = 0;
    while i < n
        invariant
            s@ == w@,
            n == w@.len(),
            i <= n,
            forall|k: int| 0 <= k < i ==> is_upper(#[trigger] w@[k]),
        decreases n - i,
    {
        let c = s.get_char(i);
        if !('A' <= c && c <= 'Z') {
            return false;
        }
        i = i + 1;
    }
    true
}

} // verus!
