use wordle::{GameState, Outcome, RejectionReason, Status, MAX_TRIES};

fn word_list() -> Vec<String> {
    vec![
        "HELLO".to_string(),
        "WORLD".to_string(),
        "MONEY".to_string(),
        "EERIE".to_string(),
    ]
}

#[test]
fn from_parts_picks_secret_by_index() {
    let g = GameState::from_parts(word_list(), 1, false).unwrap();
    assert_eq!(g.solution().as_str(), "WORLD");
    assert_eq!(g.status(), Status::Active);
    assert_eq!(g.attempts(), 0);
    assert!(!g.is_terminal());
}

#[test]
fn from_parts_rejects_bad_input() {
    assert!(GameState::from_parts(word_list(), 4, false).is_none());
    let lowercase = vec!["hello".to_string()];
    assert!(GameState::from_parts(lowercase, 0, false).is_none());
    let short = vec!["HI".to_string()];
    assert!(GameState::from_parts(short, 0, false).is_none());
}

#[test]
fn winning_round() {
    let mut g = GameState::from_parts(word_list(), 0, false).unwrap();
    let r = g.submit_guess("hello");
    assert_eq!(r.unwrap(), vec![Outcome::Correct; 5]);
    assert_eq!(g.status(), Status::Won);
    assert!(g.is_terminal());
    assert_eq!(g.attempts(), 1);
}

#[test]
fn losing_round() {
    let mut g = GameState::from_parts(word_list(), 0, false).unwrap();
    for k in 0..MAX_TRIES {
        assert_eq!(g.status(), Status::Active);
        let r = g.submit_guess("WORLD");
        assert!(r.is_ok());
        assert_eq!(g.attempts(), k + 1);
    }
    assert_eq!(g.status(), Status::Lost);
    assert!(g.is_terminal());
}

#[test]
fn wrong_length_rejected_without_attempt() {
    let mut g = GameState::from_parts(word_list(), 0, false).unwrap();
    let r = g.submit_guess("HI");
    assert_eq!(r.unwrap_err(), RejectionReason::WrongLength);
    assert_eq!(g.attempts(), 0);
    assert_eq!(g.status(), Status::Active);
}

#[test]
fn unknown_word_rejected_without_attempt() {
    let mut g = GameState::from_parts(word_list(), 0, false).unwrap();
    let r = g.submit_guess("QQQQQ");
    assert_eq!(r.unwrap_err(), RejectionReason::NotInList);
    assert_eq!(g.attempts(), 0);
    assert_eq!(g.status(), Status::Active);
}

#[test]
fn repeats_rejected_only_when_configured() {
    let mut strict = GameState::from_parts(word_list(), 0, true).unwrap();
    assert!(strict.submit_guess("WORLD").is_ok());
    let r = strict.submit_guess("WORLD");
    assert_eq!(r.unwrap_err(), RejectionReason::AlreadyGuessed);
    assert_eq!(strict.attempts(), 1);

    let mut lenient = GameState::from_parts(word_list(), 0, false).unwrap();
    assert!(lenient.submit_guess("WORLD").is_ok());
    assert!(lenient.submit_guess("WORLD").is_ok());
    assert_eq!(lenient.attempts(), 2);
}

#[test]
fn absent_letters_are_tracked() {
    let mut g = GameState::from_parts(word_list(), 2, false).unwrap();
    g.submit_guess("EERIE").unwrap();
    let letters = g.guessed_letters();
    assert_eq!(letters.len(), 3);
    assert!(letters.contains(&'E'));
    assert!(letters.contains(&'R'));
    assert!(letters.contains(&'I'));
}

#[test]
fn guesses_are_recorded_normalized() {
    let mut g = GameState::from_parts(word_list(), 0, false).unwrap();
    g.submit_guess(" hello ").unwrap();
    assert_eq!(g.guesses().len(), 1);
    assert_eq!(g.guesses()[0], "HELLO");
}

#[test]
fn new_requires_a_usable_word_list() {
    assert!(GameState::new("", false).is_none());
    assert!(GameState::new("HEY\nYOU", false).is_none());
    let g = GameState::new("HELLO\nWORLD", false).unwrap();
    let s = g.solution().as_str();
    assert!(s == "HELLO" || s == "WORLD");
}

#[test]
fn new_seeded_is_reproducible() {
    let a = GameState::new_seeded("HELLO\nWORLD\nMONEY", 7, false).unwrap();
    let b = GameState::new_seeded("HELLO\nWORLD\nMONEY", 7, false).unwrap();
    assert_eq!(a.solution().as_str(), b.solution().as_str());
}
