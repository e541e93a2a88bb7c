//! A terminal word-guessing game: a target word is drawn from a dictionary,
//! and each guess is scored letter by letter against it.
pub mod error;
pub mod text;
pub mod resolver;
pub mod store;
pub mod game;
