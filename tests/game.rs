use cli_wordle::error::GameError;
use cli_wordle::game::{Game, GameState, DEFAULT_MAX_ATTEMPTS, DEFAULT_WORD_LENGTH};
use cli_wordle::resolver::CharMatch;
use cli_wordle::store::WordStore;
use cli_wordle::text::{char_vec, trim_line_end};
use rand::rngs::StdRng;
use rand::SeedableRng;

fn dictionary() -> WordStore {
    WordStore::load("fiery\nfeast\nstart\nbrick\ncrane\nplumb\nghost").unwrap()
}

#[test]
fn wrong_length_is_refused_without_using_an_attempt() {
    let mut g = Game::with_target(dictionary(), String::from("fiery"), 5, 5);
    assert_eq!(g.play(String::from("starts")), Err(GameError::LengthMismatch));
    assert_eq!(g.attempt_count(), 0);
    assert_eq!(g.state(), GameState::AwaitingGuess);
}

#[test]
fn unknown_word_is_refused_without_using_an_attempt() {
    let mut g = Game::with_target(dictionary(), String::from("fiery"), 5, 5);
    assert_eq!(g.play(String::from("zzzzz")), Err(GameError::NotInDictionary));
    assert_eq!(g.attempt_count(), 0);
    assert_eq!(g.state(), GameState::AwaitingGuess);
}

#[test]
fn five_misses_exhaust_a_five_attempt_game() {
    let mut g = Game::with_target(dictionary(), String::from("fiery"), 5, 5);
    let guesses = ["feast", "start", "brick", "crane", "plumb"];
    for (i, w) in guesses.iter().enumerate() {
        let r = g.play(String::from(*w)).unwrap();
        if i < 4 {
            assert_eq!(r, GameState::AwaitingGuess);
        } else {
            assert_eq!(r, GameState::Exhausted);
        }
    }
    assert_eq!(g.state(), GameState::Exhausted);
    assert!(g.is_over());
    assert_eq!(g.attempt_count(), 5);
}

#[test]
fn exact_guess_wins_the_game() {
    let mut g = Game::with_target(dictionary(), String::from("fiery"), 5, 5);
    assert_eq!(g.play(String::from("feast")), Ok(GameState::AwaitingGuess));
    assert_eq!(g.play(String::from("fiery")), Ok(GameState::Won));
    assert_eq!(g.attempt_count(), 2);
    let last = &g.attempts()[1];
    assert!(last.is_win());
    assert!(last.match_vector().iter().all(|m| matches!(m, CharMatch::ExistsHere(_))));
}

#[test]
fn submit_lowercases_and_strips_line_break() {
    let mut g = Game::with_target(dictionary(), String::from("fiery"), 6, 5);
    assert_eq!(g.submit("FEAST\n"), Ok(GameState::AwaitingGuess));
    assert_eq!(g.attempts()[0].attempt_text(), "feast");
    assert_eq!(g.submit("Fiery\r\n"), Ok(GameState::Won));
}

#[test]
fn submit_checks_length_after_normalising() {
    let mut g = Game::with_target(dictionary(), String::from("fiery"), 6, 5);
    assert_eq!(g.submit("FEASTS\n"), Err(GameError::LengthMismatch));
    assert_eq!(g.submit("ZZZZZ\n"), Err(GameError::NotInDictionary));
    assert_eq!(g.attempt_count(), 0);
}

#[test]
fn new_game_draws_target_from_dictionary() {
    let mut rng = StdRng::seed_from_u64(9);
    let g = Game::new(dictionary(), &mut rng).unwrap();
    assert!(g.words().contains(g.target_word()));
    assert_eq!(g.max_attempts(), DEFAULT_MAX_ATTEMPTS);
    assert_eq!(g.word_length(), DEFAULT_WORD_LENGTH);
    assert_eq!(DEFAULT_MAX_ATTEMPTS, 6);
    assert_eq!(g.state(), GameState::AwaitingGuess);
    assert_eq!(g.attempt_count(), 0);
}

#[test]
fn new_game_on_empty_dictionary_fails() {
    let mut rng = StdRng::seed_from_u64(9);
    assert_eq!(Game::new(WordStore::new(), &mut rng).err(), Some(GameError::EmptyDictionary));
}

#[test]
fn line_end_is_removed_once() {
    assert_eq!(trim_line_end("abc\n"), "abc");
    assert_eq!(trim_line_end("abc\r\n"), "abc");
    assert_eq!(trim_line_end("abc\n\n"), "abc\n");
    assert_eq!(trim_line_end("abc"), "abc");
    assert_eq!(trim_line_end(""), "");
}

#[test]
fn characters_in_order() {
    assert_eq!(char_vec("héllo"), vec!['h', 'é', 'l', 'l', 'o']);
}

#[test]
fn error_messages_differ() {
    assert_ne!(GameError::LengthMismatch.message(), GameError::NotInDictionary.message());
    assert_ne!(GameError::EmptyDictionary.message(), GameError::InputClosed.message());
}

#[test]
fn make_play_scores_without_changing_the_game() {
    let mut g = Game::with_target(dictionary(), String::from("fiery"), 5, 5);
    let a = g.make_play(String::from("feast"));
    assert_eq!(a.attempt_text(), "feast");
    assert_eq!(a.length(), 5);
    assert_eq!(
        *a.match_vector(),
        vec![
            CharMatch::ExistsHere('f'),
            CharMatch::ExistsSomewhereElse('e'),
            CharMatch::DoesNotExist('a'),
            CharMatch::DoesNotExist('s'),
            CharMatch::DoesNotExist('t'),
        ]
    );
    assert!(!a.is_win());
    assert_eq!(g.attempt_count(), 0);
    assert_eq!(g.state(), GameState::AwaitingGuess);
}

#[test]
fn make_play_scores_words_outside_the_dictionary() {
    let mut g = Game::with_target(dictionary(), String::from("fiery"), 5, 5);
    let a = g.make_play(String::from("fiery"));
    assert!(a.is_win());
    let b = g.make_play(String::from("fxxxy"));
    assert_eq!(b.attempt_text(), "fxxxy");
    assert_eq!(b.match_vector()[4], CharMatch::ExistsHere('y'));
    assert_eq!(g.attempt_count(), 0);
}

#[test]
fn make_play_with_wrong_length_holds_no_text() {
    let mut g = Game::with_target(dictionary(), String::from("fiery"), 5, 5);
    let a = g.make_play(String::from("fieryy"));
    assert_eq!(a.attempt_text(), "");
    assert!(a.match_vector().is_empty());
    assert!(!a.is_win());
}

#[test]
fn new_game_target_has_word_length() {
    let mut rng = StdRng::seed_from_u64(11);
    let g = Game::new(dictionary(), &mut rng).unwrap();
    assert_eq!(g.target_word().chars().count(), DEFAULT_WORD_LENGTH);
}
