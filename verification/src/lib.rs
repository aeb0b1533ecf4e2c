//! A verified core for a command-line word-guessing game.
//!
//! The library holds the game state (the secret word with per-letter
//! reveal flags, the remaining-guess budget, and the set of letters
//! already attempted), the guess-application transition, and the
//! input validator that gates raw characters before they reach the
//! game state. Console I/O and argument handling live outside.

pub mod hangman;
pub mod utils;
