use vstd::prelude::*;
use crate::error::GameError;
use crate::resolver::{classify, wins, Attempt};
use crate::store::WordStore;
use vstd::string::StrSliceExecFns;
use crate::text::{lower_of, lowercase, strip_line_end, trim_line_end};

verus! {

/// Where a game stands between turns.
#[derive(Clone, Copy, Debug, PartialEq, Eq, Structural)]
pub enum GameState {
    /// The game waits for the next guess.
    AwaitingGuess,
    /// A guess matched the target: the game is over.
    Won,
    /// Every attempt of the budget was used without a win: the game is over.
    Exhausted,
}

/// The number of attempts a game allows unless told otherwise.
pub const DEFAULT_MAX_ATTEMPTS: usize = 6;

/// The length of the words a game uses unless told otherwise.
pub const DEFAULT_WORD_LENGTH: usize = 5;

/// One game: its target word, its dictionary, its budget of attempts and the
/// attempts made so far.
pub struct Game {
    max_attempts: usize,
    attempts: Vec<Attempt>,
    words: WordStore,
    word_length: usize,
    target_word: String,
    state: GameState,
}

/// Each guess of `guesses` was played in turn from `games[0]`: `games[k + 1]`
/// and `results[k]` are what playing `guesses[k]` on `games[k]` gives.
pub open spec fn played_in_turn(games: Seq<Game>, guesses: Seq<Seq<char>>, results: Seq<Result<GameState, GameError>>) -> bool {
    &&& games.len() == guesses.len() + 1
    &&& results.len() == guesses.len()
    &&& forall|k: int|
        0 <= k < guesses.len() ==> #[trigger] Game::played(games[k], games[k + 1], guesses[k], results[k])
}

/// Each of `guesses` is accepted by the game `g` and is not its target: it
/// has the word length and is in the dictionary.
pub open spec fn valid_misses(g: Game, guesses: Seq<Seq<char>>) -> bool {
    forall|k: int|
        0 <= k < guesses.len() ==> {
            &&& (#[trigger] guesses[k]).len() == g.len_of_words()
            &&& g.dict().contains(guesses[k])
            &&& guesses[k] != g.target()
        }
}

/// After `k` valid misses played in turn from a fresh game whose target has
/// the word length, the game holds `k` attempts, keeps its setup, and stands
/// where the budget puts it.
proof fn lemma_misses_prefix(
    games: Seq<Game>,
    guesses: Seq<Seq<char>>,
    results: Seq<Result<GameState, GameError>>,
    k: int,
)
    requires
        played_in_turn(games, guesses, results),
        games[0].history().len() == 0,
        games[0].target().len() == games[0].len_of_words(),
        valid_misses(games[0], guesses),
        0 <= k <= guesses.len(),
    ensures
        games[k].history().len() == k,
        Game::same_setup(games[0], games[k]),
        0 < k ==> games[k].phase() == Game::next_phase(false, k as nat, games[0].max()),
        0 < k ==> results[k - 1] == Ok::<GameState, GameError>(games[k].phase()),
    decreases k,
{
    if k > 0 {
        lemma_misses_prefix(games, guesses, results, k - 1);
        assert(Game::played(games[k - 1], games[(k - 1) + 1], guesses[k - 1], results[k - 1]));
        assert(guesses[k - 1].len() == games[0].len_of_words());
        crate::resolver::lemma_win_iff_target(guesses[k - 1], games[0].target());
    }
}

/// A game of `max` attempts that starts empty, awaiting a guess, with a target
/// of the word length, is exhausted by `max` valid guesses that all miss: the
/// game waits for the next guess after each of them but the last, and holds
/// all `max` attempts at the end.
pub proof fn lemma_valid_misses_exhaust(
    games: Seq<Game>,
    guesses: Seq<Seq<char>>,
    results: Seq<Result<GameState, GameError>>,
)
    requires
        played_in_turn(games, guesses, results),
        games[0].history().len() == 0,
        games[0].phase() == GameState::AwaitingGuess,
        games[0].target().len() == games[0].len_of_words(),
        valid_misses(games[0], guesses),
        guesses.len() == games[0].max(),
        games[0].max() > 0,
    ensures
        forall|k: int| 0 <= k < guesses.len() ==> (#[trigger] games[k]).phase() == GameState::AwaitingGuess,
        games.last().phase() == GameState::Exhausted,
        games.last().history().len() == games[0].max(),
        results.last() == Ok::<GameState, GameError>(GameState::Exhausted),
{
    assert forall|k: int| 0 <= k < guesses.len() implies (#[trigger] games[k]).phase() == GameState::AwaitingGuess by {
        lemma_misses_prefix(games, guesses, results, k);
    }
    lemma_misses_prefix(games, guesses, results, guesses.len() as int);
}

impl Game {
    /// How many attempts the game allows.
    pub closed spec fn max(&self) -> usize {
        self.max_attempts
    }

    /// The length every guess must have.
    pub closed spec fn len_of_words(&self) -> usize {
        self.word_length
    }

    /// The word to guess.
    pub closed spec fn target(&self) -> Seq<char> {
        self.target_word@
    }

    /// The words accepted as guesses.
    pub closed spec fn dict(&self) -> Set<Seq<char>> {
        self.words@
    }

    /// The attempts made so far, in order.
    pub closed spec fn history(&self) -> Seq<Attempt> {
        self.attempts@
    }

    /// Where the game stands.
    pub closed spec fn phase(&self) -> GameState {
        self.state
    }

    /// The state that follows a resolved attempt: won on a win, exhausted once
    /// `count` reaches `max`, and waiting for the next guess otherwise.
    pub open spec fn next_phase(won: bool, count: nat, max: usize) -> GameState {
        if won {
            GameState::Won
        } else if count >= max {
            GameState::Exhausted
        } else {
            GameState::AwaitingGuess
        }
    }

    /// `after` is `before` with its settings, target and dictionary unchanged.
    pub open spec fn same_setup(before: Game, after: Game) -> bool {
        &&& after.max() == before.max()
        &&& after.len_of_words() == before.len_of_words()
        &&& after.target() == before.target()
        &&& after.dict() == before.dict()
    }

    /// `r` and `after` are what playing `guess` on `before` gives: a guess of
    /// the wrong length or outside the dictionary is refused and changes
    /// nothing; any other is resolved against the target, added to the
    /// history, and decides the next state.
    pub open spec fn played(before: Game, after: Game, guess: Seq<char>, r: Result<GameState, GameError>) -> bool {
        &&& Game::same_setup(before, after)
        &&& if guess.len() != before.len_of_words() {
            &&& r == Err::<GameState, GameError>(GameError::LengthMismatch)
            &&& after.history() == before.history()
            &&& after.phase() == before.phase()
        } else if !before.dict().contains(guess) {
            &&& r == Err::<GameState, GameError>(GameError::NotInDictionary)
            &&& after.history() == before.history()
            &&& after.phase() == before.phase()
        } else {
            let a = after.history().last();
            &&& after.history().len() == before.history().len() + 1
            &&& after.history().drop_last() == before.history()
            &&& a.spec_length() == before.len_of_words()
            &&& a.text() == guess
            &&& a.classes() == classify(guess, before.target())
            &&& a.won() == wins(guess, before.target())
            &&& after.phase() == Game::next_phase(a.won(), after.history().len(), before.max())
            &&& r == Ok::<GameState, GameError>(after.phase())
        }
    }

    /// A game on `words` whose target is drawn from them with `rng`, with the
    /// default budget and word length. Fails on an empty dictionary.
    pub fn new(words: WordStore, rng: &mut rand::rngs::StdRng) -> (r: Result<Game, GameError>)
        ensures
            r is Ok <==> words@ != Set::<Seq<char>>::empty(),
            r matches Err(e) ==> e == GameError::EmptyDictionary,
            r matches Ok(g) ==> {
                &&& g.dict() == words@
                &&& words@.contains(g.target())
                &&& (forall|w: Seq<char>| #[trigger] words@.contains(w) ==> w.len() == DEFAULT_WORD_LENGTH)
                    ==> g.target().len() == DEFAULT_WORD_LENGTH
                &&& g.max() == DEFAULT_MAX_ATTEMPTS
                &&& g.len_of_words() == DEFAULT_WORD_LENGTH
                &&& g.history().len() == 0
                &&& g.phase() == GameState::AwaitingGuess
            },
    {
        match words.random_word(rng) {
            Ok(target_word) => Ok(
                Game::with_target(words, target_word, DEFAULT_MAX_ATTEMPTS, DEFAULT_WORD_LENGTH),
            ),
            Err(e) => Err(e),
        }
    }

    /// A game on `words` with the given target, budget and word length.
    pub fn with_target(words: WordStore, target_word: String, max_attempts: usize, word_length: usize) -> (g: Game)
        ensures
            g.dict() == words@,
            g.target() == target_word@,
            g.max() == max_attempts,
            g.len_of_words() == word_length,
            g.history().len() == 0,
            g.phase() == GameState::AwaitingGuess,
    {
        Game {
            max_attempts,
            attempts: Vec::new(),
            words,
            word_length,
            target_word,
            state: GameState::AwaitingGuess,
        }
    }

    /// An attempt at `user_word` scored against the target, leaving the game
    /// as it is. A guess of the wrong length is not taken, and the attempt
    /// then holds no text.
    pub fn make_play(&mut self, user_word: String) -> (a: Attempt)
        ensures
            *final(self) == *old(self),
            a.spec_length() == old(self).len_of_words(),
            user_word@.len() == old(self).len_of_words() ==> a.text() == user_word@,
            user_word@.len() != old(self).len_of_words() ==> a.text().len() == 0,
            a.classes() == classify(a.text(), old(self).target()),
            a.won() == wins(a.text(), old(self).target()),
    {
        let mut user_word = user_word;
        let mut attempt = Attempt::new(self.word_length);
        let _ = attempt.attempt(&mut user_word);
        attempt.resolve(&self.target_word);
        attempt
    }

    /// Plays `user_word` as the next guess, as it stands; returns the state
    /// that follows, or why the guess was refused.
    pub fn play(&mut self, user_word: String) -> (r: Result<GameState, GameError>)
        requires
            old(self).phase() == GameState::AwaitingGuess,
        ensures
            Game::played(*old(self), *final(self), user_word@, r),
    {
        if user_word.as_str().unicode_len() != self.word_length {
            return Err(GameError::LengthMismatch);
        }
        if !self.words.contains(user_word.as_str()) {
            return Err(GameError::NotInDictionary);
        }
        let attempt = self.make_play(user_word);
        let won = attempt.is_win();
        let ghost before = self.attempts@;
        self.attempts.push(attempt);
        assert(self.attempts@.drop_last() =~= before);
        self.state = if won {
            GameState::Won
        } else if self.attempts.len() >= self.max_attempts {
            GameState::Exhausted
        } else {
            GameState::AwaitingGuess
        };
        Ok(self.state)
    }

    /// Plays a line of input: one trailing line break is removed and the rest
    /// is lowercased before it is played as the next guess.
    pub fn submit(&mut self, raw: &str) -> (r: Result<GameState, GameError>)
        requires
            old(self).phase() == GameState::AwaitingGuess,
        ensures
            Game::played(*old(self), *final(self), lower_of(strip_line_end(raw@)), r),
    {
        let line = trim_line_end(raw);
        let guess = lowercase(line.as_str());
        self.play(guess)
    }

    /// Where the game stands.
    pub fn state(&self) -> (s: GameState)
        ensures
            s == self.phase(),
    {
        self.state
    }

    /// Whether the game is over, won or exhausted.
    pub fn is_over(&self) -> (b: bool)
        ensures
            b == (self.phase() != GameState::AwaitingGuess),
    {
        self.state != GameState::AwaitingGuess
    }

    /// How many attempts were made.
    pub fn attempt_count(&self) -> (n: usize)
        ensures
            n == self.history().len(),
    {
        self.attempts.len()
    }

    /// The attempts made so far, in order.
    pub fn attempts(&self) -> (v: &Vec<Attempt>)
        ensures
            v@ == self.history(),
    {
        &self.attempts
    }

    /// How many attempts the game allows.
    pub fn max_attempts(&self) -> (n: usize)
        ensures
            n == self.max(),
    {
        self.max_attempts
    }

    /// The length every guess must have.
    pub fn word_length(&self) -> (n: usize)
        ensures
            n == self.len_of_words(),
    {
        self.word_length
    }

    /// The word to guess.
    pub fn target_word(&self) -> (s: &String)
        ensures
            s@ == self.target(),
    {
        &self.target_word
    }

    /// The words accepted as guesses.
    pub fn words(&self) -> (w: &WordStore)
        ensures
            w@ == self.dict(),
    {
        &self.words
    }
}

} // verus!
