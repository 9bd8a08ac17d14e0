use wordle::{get_words, is_valid_word, sanitize_word};

#[test]
fn test_sanitze_word() {
    assert_eq!(sanitize_word("HELLO"), "HELLO");
    assert_eq!(sanitize_word("  HELLO"), "HELLO");
    assert_eq!(sanitize_word("HELLO\n"), "HELLO");
    assert_eq!(sanitize_word("HELLO  "), "HELLO");
    assert_eq!(sanitize_word("HEL  LO"), "HELLO");
    assert_eq!(sanitize_word("H3L\nL0"), "HLL");
}

#[test]
fn test_is_valid_word() {
    assert_eq!(is_valid_word("HELLO"), true);
    assert_eq!(is_valid_word("WORLD"), true);
    assert_eq!(is_valid_word("WRLD"), false);
    assert_eq!(is_valid_word("WOORLD"), false);
}

#[test]
fn test_get_words() {
    assert_eq!(get_words("HELLO\nWORLD"), ["HELLO", "WORLD"]);
    assert_eq!(get_words("HELLO\n\nWORLD"), ["HELLO", "WORLD"]);
    assert_eq!(get_words("HEY\nWORLD"), ["WORLD"]);
    let empty_vec: Vec<String> = Vec::new();
    assert_eq!(get_words("HEY\nYOU\nPIKACHU"), empty_vec);
}

#[test]
fn sanitize_lowercases_and_filters() {
    assert_eq!(sanitize_word("he!Llo "), "HELLO");
    assert_eq!(sanitize_word(""), "");
    assert_eq!(sanitize_word("12345"), "");
}

#[test]
fn sanitize_uppercases_before_filtering() {
    // characters whose Unicode uppercase mapping lands in ASCII letters
    // survive normalization through that mapping
    assert_eq!(sanitize_word("stra\u{df}e"), "STRASSE");
    assert_eq!(sanitize_word("\u{131}"), "I");
    assert_eq!(sanitize_word("\u{17f}"), "S");
    assert_eq!(sanitize_word("\u{fb01}ve"), "FIVE");
    assert_eq!(sanitize_word("\u{fb03}"), "FFI");
    assert_eq!(sanitize_word("\u{fb05}op"), "STOP");
    // a mapping that pairs a letter with a modifier keeps only the letter
    assert_eq!(sanitize_word("\u{149}"), "N");
    // an uppercase form outside ASCII is still dropped
    assert_eq!(sanitize_word("caf\u{e9}"), "CAF");
}

#[test]
fn sanitize_is_idempotent() {
    let inputs = ["  hello ", "H3L\nL0", "crane", "", "a-b-c-d-e", "\u{17f}tra\u{df}e"];
    for raw in inputs {
        let once = sanitize_word(raw);
        assert_eq!(sanitize_word(&once), once);
    }
}

#[test]
fn sanitize_yields_only_uppercase_ascii() {
    let inputs = ["  hello ", "H3L\nL0", "mixed UP case!", "\twords\r\n", "caf\u{e9}", "\u{df}\u{fb00}!"];
    for raw in inputs {
        for c in sanitize_word(raw).chars() {
            assert!(c.is_ascii_uppercase());
        }
    }
}

#[test]
fn valid_word_is_exactly_length_five() {
    assert!(is_valid_word("ABCDE"));
    assert!(!is_valid_word(""));
    assert!(!is_valid_word("ABCD"));
    assert!(!is_valid_word("ABCDEF"));
}

#[test]
fn get_words_keeps_only_valid_lines() {
    assert_eq!(get_words("HELLO\nWRLD"), ["HELLO"]);
}

#[test]
fn get_words_normalizes_lines() {
    assert_eq!(get_words(" hello \nw o r l d\nnope"), ["HELLO", "WORLD"]);
}

#[test]
fn get_words_accepts_words_through_the_uppercase_mapping() {
    assert_eq!(get_words("a\u{df}en\nHELLO"), ["ASSEN", "HELLO"]);
}

#[test]
fn get_words_on_empty_text() {
    let empty_vec: Vec<String> = Vec::new();
    assert_eq!(get_words(""), empty_vec);
}
