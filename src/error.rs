use vstd::prelude::*;

verus! {

/// Why a step of the game could not be taken.
#[derive(Clone, Copy, Debug, PartialEq, Eq, Structural)]
pub enum GameError {
    /// The guess does not have the length of the session's words.
    LengthMismatch,
    /// The guess is not a word of the dictionary.
    NotInDictionary,
    /// The dictionary holds no word.
    EmptyDictionary,
    /// The input ended before the game did.
    InputClosed,
}

impl GameError {
    /// A short message for the player.
    pub fn message(&self) -> &'static str {
        match self {
            GameError::LengthMismatch => "Word is not the right length!",
            GameError::NotInDictionary => "Not in the word list!",
            GameError::EmptyDictionary => "The word list is empty!",
            GameError::InputClosed => "The input ended.",
        }
    }
}

} // verus!
