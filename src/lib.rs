//! A five-letter word-guessing game: the guess grid, the keyboard's letter
//! tags, guess scoring and the win/loss state machine, with the word list's
//! parsing and the draw of the secret word.
use vstd::prelude::*;

pub mod game_data;
pub mod word_list;
