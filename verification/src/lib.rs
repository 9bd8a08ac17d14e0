//! A verified core for a terminal word-guessing game: word normalization
//! and validation, duplicate-letter-aware guess scoring, and the
//! turn-by-turn game state machine.

mod game;
mod score;
mod words;

pub use game::{
    absent_letters_of, in_list, lemma_lose_on_exhaustion, lemma_secret_always_accepted,
    lemma_win_on_secret, next_status, valid_word, word_is_valid_shape, GameState, RejectionReason,
    Status, MAX_TRIES, MAX_WORD_COUNT,
};
pub use score::{get_guess_color, outcome_at, score, score_spec, Outcome};
pub use words::{
    get_words, is_valid_word, lemma_normalize_idempotent, lemma_normalize_uppercase, normalize,
    sanitize_word, split_lines, words_of, WORD_LENGTH,
};
