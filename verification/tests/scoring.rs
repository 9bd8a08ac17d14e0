use wordle::{get_guess_color, score, Outcome};

#[test]
fn test_get_guess_color() {
    assert_eq!(get_guess_color(&"MONEY".to_string(), 0, 'M'), "green");
    assert_eq!(get_guess_color(&"MONEY".to_string(), 0, 'Y'), "yellow");
    assert_eq!(get_guess_color(&"MONEY".to_string(), 0, 'D'), "red");
}

#[test]
fn score_all_correct() {
    assert_eq!(score("MONEY", "MONEY"), vec![Outcome::Correct; 5]);
}

#[test]
fn score_correct_at_first_position() {
    let r = score("MONEY", "MACRO");
    assert_eq!(
        r,
        [
            Outcome::Correct,
            Outcome::Absent,
            Outcome::Absent,
            Outcome::Absent,
            Outcome::Present,
        ]
    );
}

#[test]
fn score_present_not_correct() {
    let r = score("MONEY", "YNOMX");
    assert_ne!(r[0], Outcome::Correct);
    assert_eq!(
        r,
        [
            Outcome::Present,
            Outcome::Present,
            Outcome::Present,
            Outcome::Present,
            Outcome::Absent,
        ]
    );
}

#[test]
fn score_duplicate_letters_consume() {
    // The secret holds a single E; of the guess's three E's only the first
    // non-exact one is Present, the extra repeats are Absent.
    let r = score("MONEY", "EERIE");
    assert_eq!(
        r,
        [
            Outcome::Present,
            Outcome::Absent,
            Outcome::Absent,
            Outcome::Absent,
            Outcome::Absent,
        ]
    );
}

#[test]
fn score_duplicates_spent_by_exact_matches() {
    // Both E's of the secret are claimed by exact matches, so every other
    // E of the guess is Absent.
    let r = score("GREEN", "EEEEE");
    assert_eq!(
        r,
        [
            Outcome::Absent,
            Outcome::Absent,
            Outcome::Correct,
            Outcome::Correct,
            Outcome::Absent,
        ]
    );
}
