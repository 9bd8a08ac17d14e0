use vstd::prelude::*;

verus! {

/// The outcome of one guess letter scored against the secret word.
#[derive(Clone, Copy, Debug, PartialEq, Eq, Structural)]
pub enum Outcome {
    /// The right letter in the right position.
    Correct,
    /// The letter occurs in the secret at another position that no exact
    /// match and no earlier misplaced occurrence already claimed.
    Present,
    /// No unclaimed occurrence of the letter remains in the secret.
    Absent,
}

/// Number of positions j < n with s[j] == c.
pub open spec fn cnt_char(s: Seq<char>, c: char, n: int) -> nat
    decreases n,
{
    if n <= 0 {
        0
    } else {
        cnt_char(s, c, n - 1) + (if s[n - 1] == c {
            1nat
        } else {
            0nat
        })
    }
}

/// Number of positions j < n where the guess matches the secret exactly
/// and that shared letter is c.
pub open spec fn cnt_correct(secret: Seq<char>, guess: Seq<char>, c: char, n: int) -> nat
    decreases n,
{
    if n <= 0 {
        0
    } else {
        cnt_correct(secret, guess, c, n - 1) + (if guess[n - 1] == secret[n - 1] && secret[n - 1]
            == c {
            1nat
        } else {
            0nat
        })
    }
}

/// Number of positions k < n where the guess holds c but the secret does not
/// match there: the occurrences of c that compete for a Present mark.
pub open spec fn cnt_misplaced(secret: Seq<char>, guess: Seq<char>, c: char, n: int) -> nat
    decreases n,
{
    if n <= 0 {
        0
    } else {
        cnt_misplaced(secret, guess, c, n - 1) + (if guess[n - 1] == c && guess[n - 1] != secret[n
            - 1] {
            1nat
        } else {
            0nat
        })
    }
}

/// The outcome of position i of the guess. A letter is Correct on an exact
/// match. Otherwise it is Present only while unclaimed occurrences of it
/// remain in the secret: occurrences claimed by exact matches anywhere, or
/// by misplaced occurrences of the same letter earlier in the guess, are
/// spent. Extra repeats beyond the secret's count are Absent.
pub open spec fn outcome_at(secret: Seq<char>, guess: Seq<char>, i: int) -> Outcome {
    if guess[i] == secret[i] {
        Outcome::Correct
    } else if cnt_misplaced(secret, guess, guess[i], i) + cnt_correct(
        secret,
        guess,
        guess[i],
        secret.len() as int,
    ) < cnt_char(secret, guess[i], secret.len() as int) {
        Outcome::Present
    } else {
        Outcome::Absent
    }
}

/// The outcome sequence of a whole guess, position by position.
pub open spec fn score_spec(secret: Seq<char>, guess: Seq<char>) -> Seq<Outcome> {
    Seq::new(guess.len(), |i: int| outcome_at(secret, guess, i))
}

/// Number of positions k < n whose outcome is Present and whose guess letter
/// is c.
pub open spec fn cnt_present(secret: Seq<char>, guess: Seq<char>, c: char, n: int) -> nat
    decreases n,
{
    if n <= 0 {
        0
    } else {
        cnt_present(secret, guess, c, n - 1) + (if guess[n - 1] == c && outcome_at(
            secret,
            guess,
            n - 1,
        ) == Outcome::Present {
            1nat
        } else {
            0nat
        })
    }
}

/// Number of positions j < n that are consumed and hold c in the secret.
pub open spec fn cnt_consumed(secret: Seq<char>, consumed: Seq<bool>, c: char, n: int) -> nat
    decreases n,
{
    if n <= 0 {
        0
    } else {
        cnt_consumed(secret, consumed, c, n - 1) + (if consumed[n - 1] && secret[n - 1] == c {
            1nat
        } else {
            0nat
        })
    }
}

/// Exact matches of a letter are occurrences of it.
pub proof fn lemma_correct_le_char(secret: Seq<char>, guess: Seq<char>, c: char, n: int)
    ensures
        cnt_correct(secret, guess, c, n) <= cnt_char(secret, c, n),
    decreases n,
{
    if n > 0 {
        lemma_correct_le_char(secret, guess, c, n - 1);
    }
}

/// How many occurrences of a letter are Present among the first n positions:
/// every misplaced occurrence up to the secret's unclaimed supply, and none
/// beyond it.
pub proof fn lemma_present_count(secret: Seq<char>, guess: Seq<char>, c: char, n: int)
    requires
        0 <= n,
    ensures
        cnt_present(secret, guess, c, n) + cnt_correct(secret, guess, c, secret.len() as int)
            == vstd::math::min(
            (cnt_misplaced(secret, guess, c, n) + cnt_correct(
                secret,
                guess,
                c,
                secret.len() as int,
            )) as int,
            cnt_char(secret, c, secret.len() as int) as int,
        ),
    decreases n,
{
    let len = secret.len() as int;
    lemma_correct_le_char(secret, guess, c, len);
    if n > 0 {
        lemma_present_count(secret, guess, c, n - 1);
    }
}

/// Consumed occurrences of a letter never outnumber its occurrences.
pub proof fn lemma_consumed_le_char(secret: Seq<char>, consumed: Seq<bool>, c: char, n: int)
    ensures
        cnt_consumed(secret, consumed, c, n) <= cnt_char(secret, c, n),
    decreases n,
{
    if n > 0 {
        lemma_consumed_le_char(secret, consumed, c, n - 1);
    }
}

/// When every occurrence of a letter before n is consumed, the consumed
/// count reaches the occurrence count.
pub proof fn lemma_all_consumed(secret: Seq<char>, consumed: Seq<bool>, c: char, n: int)
    requires
        forall|j: int| 0 <= j < n && secret[j] == c ==> consumed[j],
    ensures
        cnt_consumed(secret, consumed, c, n) == cnt_char(secret, c, n),
    decreases n,
{
    if n > 0 {
        lemma_all_consumed(secret, consumed, c, n - 1);
    }
}

/// An unconsumed occurrence of a letter keeps the consumed count strictly
/// below the occurrence count.
pub proof fn lemma_unconsumed_strict(
    secret: Seq<char>,
    consumed: Seq<bool>,
    c: char,
    j: int,
    n: int,
)
    requires
        0 <= j < n,
        secret[j] == c,
        !consumed[j],
    ensures
        cnt_consumed(secret, consumed, c, n) < cnt_char(secret, c, n),
    decreases n,
{
    if j == n - 1 {
        lemma_consumed_le_char(secret, consumed, c, n - 1);
    } else {
        lemma_unconsumed_strict(secret, consumed, c, j, n - 1);
    }
}

/// Consuming position j raises the consumed count of the letter there by
/// one, and leaves every other letter's count unchanged.
pub proof fn lemma_consume_one(
    secret: Seq<char>,
    consumed: Seq<bool>,
    c: char,
    j: int,
    n: int,
)
    requires
        0 <= j < consumed.len(),
        n <= consumed.len(),
        !consumed[j],
    ensures
        cnt_consumed(secret, consumed.update(j, true), c, n) == cnt_consumed(
            secret,
            consumed,
            c,
            n,
        ) + (if j < n && secret[j] == c {
            1nat
        } else {
            0nat
        }),
    decreases n,
{
    if n > 0 {
        lemma_consume_one(secret, consumed, c, j, n - 1);
        if j == n - 1 {
            assert(consumed.update(j, true)[n - 1]);
        } else {
            assert(consumed.update(j, true)[n - 1] == consumed[n - 1]);
        }
    }
}

/// When the consumed positions are exactly the exact matches, the consumed
/// count of each letter equals its exact-match count.
pub proof fn lemma_consumed_init(
    secret: Seq<char>,
    guess: Seq<char>,
    consumed: Seq<bool>,
    c: char,
    n: int,
)
    requires
        forall|j: int| 0 <= j < n ==> consumed[j] == (guess[j] == secret[j]),
    ensures
        cnt_consumed(secret, consumed, c, n) == cnt_correct(secret, guess, c, n),
    decreases n,
{
    if n > 0 {
        lemma_consumed_init(secret, guess, consumed, c, n - 1);
    }
}

/// The display color for one guess letter at one position: "green" on an
/// exact match, "yellow" when the letter occurs elsewhere in the solution,
/// "red" when it occurs nowhere.
pub fn get_guess_color(solution: &String, pos: usize, c: char) -> (r: &str)
    requires
        pos < solution@.len(),
    ensures
        solution@[pos as int] == c ==> r@ == "green"@,
        solution@[pos as int] != c && solution@.contains(c) ==> r@ == "yellow"@,
        !solution@.contains(c) ==> r@ == "red"@,
{
    let s = solution.as_str();
    if s.get_char(pos) == c {
        return "green";
    }
    let n = s.unicode_len();
    let mut j: usize = 0;
    let mut seen = false;
    while j < n && !seen
        invariant
            s@ == solution@,
            n == solution@.len(),
            j <= n,
            !seen ==> forall|k: int| 0 <= k < j ==> solution@[k] != c,
            seen ==> solution@.contains(c),
        decreases n - j + (if seen {
            0int
        } else {
            1int
        }),
    {
        if s.get_char(j) == c {
            proof {
                assert(solution@[j as int] == c);
            }
            seen = true;
        } else {
            j = j + 1;
        }
    }
    if seen {
        "yellow"
    } else {
        proof {
            assert(forall|k: int| 0 <= k < solution@.len() ==> solution@[k] != c);
        }
        "red"
    }
}

/// Scores one guess against the secret word, duplicate-letter aware.
/// First every exact match is marked Correct and its secret position is
/// consumed; then each remaining guess letter consumes the first unconsumed
/// occurrence of itself in the secret (Present) or, when none remains, is
/// marked Absent.
pub fn score(secret: &str, guess: &str) -> (r: Vec<Outcome>)
    requires
        secret@.len() == guess@.len(),
    ensures
        r@ == score_spec(secret@, guess@),
{
    let n = guess.unicode_len();
    let mut out: Vec<Outcome> = Vec::new();
    let mut consumed: Vec<bool> = Vec::new();
    let mut i: usize = 0;
    while i < n
        invariant
            n == guess@.len() == secret@.len(),
            i <= n,
            out@.len() == i as int,
            consumed@.len() == i as int,
            forall|k: int| 0 <= k < i ==> #[trigger] consumed@[k] == (guess@[k] == secret@[k]),
            forall|k: int|
                0 <= k < i ==> #[trigger] out@[k] == (if guess@[k] == secret@[k] {
                    Outcome::Correct
                } else {
                    Outcome::Absent
                }),
        decreases n - i,
    {
        let gc = guess.get_char(i);
        let sc = secret.get_char(i);
        if gc == sc {
            out.push(Outcome::Correct);
            consumed.push(true);
        } else {
            out.push(Outcome::Absent);
            consumed.push(false);
        }
        i = i + 1;
    }
    proof {
        assert forall|c: char|
            #[trigger] cnt_consumed(secret@, consumed@, c, n as int) == cnt_present(
                secret@,
                guess@,
                c,
                0,
            ) + cnt_correct(secret@, guess@, c, n as int) by {
            lemma_consumed_init(secret@, guess@, consumed@, c, n as int);
        }
    }
    let mut i: usize = 0;
    while i < n
        invariant
            n == guess@.len() == secret@.len(),
            i <= n,
            out@.len() == n as int,
            consumed@.len() == n as int,
            forall|k: int|
                i <= k < n ==> #[trigger] out@[k] == (if guess@[k] == secret@[k] {
                    Outcome::Correct
                } else {
                    Outcome::Absent
                }),
            forall|k: int| 0 <= k < i ==> #[trigger] out@[k] == outcome_at(secret@, guess@, k),
            forall|c: char|
                #[trigger] cnt_consumed(secret@, consumed@, c, n as int) == cnt_present(
                    secret@,
                    guess@,
                    c,
                    i as int,
                ) + cnt_correct(secret@, guess@, c, n as int),
        decreases n - i,
    {
        let gc = guess.get_char(i);
        let sc = secret.get_char(i);
        let ghost pre_consumed = consumed@;
        if gc != sc {
            let mut j: usize = 0;
            let mut found = false;
            while j < n && !found
                invariant
                    n == secret@.len(),
                    consumed@.len() == n as int,
                    j <= n,
                    !found ==> forall|k: int| 0 <= k < j ==> !(secret@[k] == gc && !consumed@[k]),
                    found ==> j < n && secret@[j as int] == gc && !consumed@[j as int],
                decreases n - j + (if found {
                    0int
                } else {
                    1int
                }),
            {
                if !consumed[j] && secret.get_char(j) == gc {
                    found = true;
                } else {
                    j = j + 1;
                }
            }
            proof {
                lemma_present_count(secret@, guess@, gc, i as int);
                lemma_correct_le_char(secret@, guess@, gc, n as int);
                if found {
                    lemma_unconsumed_strict(secret@, pre_consumed, gc, j as int, n as int);
                } else {
                    lemma_all_consumed(secret@, pre_consumed, gc, n as int);
                }
                assert(found <==> outcome_at(secret@, guess@, i as int) == Outcome::Present);
            }
            if found {
                consumed[j] = true;
                out[i] = Outcome::Present;
                proof {
                    assert forall|c: char|
                        #[trigger] cnt_consumed(secret@, consumed@, c, n as int) == cnt_present(
                            secret@,
                            guess@,
                            c,
                            i + 1,
                        ) + cnt_correct(secret@, guess@, c, n as int) by {
                        lemma_consume_one(secret@, pre_consumed, c, j as int, n as int);
                    }
                }
            } else {
                proof {
                    assert forall|c: char|
                        #[trigger] cnt_consumed(secret@, consumed@, c, n as int) == cnt_present(
                            secret@,
                            guess@,
                            c,
                            i + 1,
                        ) + cnt_correct(secret@, guess@, c, n as int) by {
                    }
                }
            }
        } else {
            proof {
                assert forall|c: char|
                    #[trigger] cnt_consumed(secret@, consumed@, c, n as int) == cnt_present(
                        secret@,
                        guess@,
                        c,
                        i + 1,
                    ) + cnt_correct(secret@, guess@, c, n as int) by {
                }
            }
        }
        proof {
            assert(out@[i as int] == outcome_at(secret@, guess@, i as int));
        }
        i = i + 1;
    }
    proof {
        assert(out@ =~= score_spec(secret@, guess@));
    }
    out
}

} // verus!
