//! Evaluation of guesses in a word-guessing round: per-letter feedback with
//! correct handling of repeated letters, and the knowledge about letters that
//! accumulates from one guess to the next.

pub mod counter;
pub mod letters;
pub mod game;
pub mod text;
